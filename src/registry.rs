//! The connection registry and its scoped, partial-failure-tolerant send.
//!
//! Beside each connection's outbound queue the registry keeps, as ghost
//! state, the texts that queue has taken from it, in order. The contracts of
//! `send` speak of that record.
use crate::channel::{enqueue_text, Outbound};
use crate::error::WsError;
use crate::scope::{admits, scope_admits, selected, Endpoint, To};
use vstd::prelude::*;

verus! {

/// The identities registered in `entries`, in registry order.
pub open spec fn ids_of(entries: Seq<(Endpoint, Outbound)>) -> Seq<Endpoint> {
    entries.map_values(|e: (Endpoint, Outbound)| e.0)
}

/// The recipients that refused a send in scope `to` from `origin`, in
/// registry order, where `ok[i]` tells whether the queue of `ids[i]` took the
/// message (it is not read for connections the scope does not select).
pub open spec fn refused(ids: Seq<Endpoint>, origin: Endpoint, to: To, ok: Seq<bool>) -> Seq<
    Endpoint,
>
    decreases ids.len(),
{
    if ids.len() == 0 {
        Seq::empty()
    } else {
        let n = ids.len() - 1;
        let rest = refused(ids.drop_last(), origin, to, ok.drop_last());
        if admits(to, origin, ids[n]) && !ok[n] {
            rest.push(ids[n])
        } else {
            rest
        }
    }
}

/// `r` is what a send reports when exactly the recipients `failed` refused
/// the message: success if there are none, else all of them, by name.
pub open spec fn reports(r: Result<(), WsError>, failed: Seq<Endpoint>) -> bool {
    match r {
        Ok(()) => failed.len() == 0,
        Err(WsError::FailedToSend(names)) => failed.len() > 0 && names@ == failed,
        Err(_) => false,
    }
}

/// The record of a queue after a send: `text` appended once if the scope
/// selects its connection `c` and the queue took it, else unchanged.
pub open spec fn after_send(
    record: Seq<Seq<char>>,
    c: Endpoint,
    origin: Endpoint,
    to: To,
    took: bool,
    text: Seq<char>,
) -> Seq<Seq<char>> {
    if admits(to, origin, c) && took {
        record.push(text)
    } else {
        record
    }
}

/// The recipients named as failed are exactly the selected connections
/// whose queue refused the message; so a send succeeds exactly when every
/// selected queue took it, and every selected connection not named took it.
pub proof fn lemma_failures_are_exactly_the_refusals(
    ids: Seq<Endpoint>,
    origin: Endpoint,
    to: To,
    ok: Seq<bool>,
)
    requires
        ids.no_duplicates(),
        ok.len() == ids.len(),
    ensures
        forall|i: int|
            0 <= i < ids.len() ==> (refused(ids, origin, to, ok).contains(#[trigger] ids[i]) <==> (
            admits(to, origin, ids[i]) && !ok[i])),
        forall|c: Endpoint| #[trigger]
            refused(ids, origin, to, ok).contains(c) ==> ids.contains(c) && admits(to, origin, c),
        refused(ids, origin, to, ok).len() == 0 <==> forall|i: int|
            0 <= i < ids.len() && admits(to, origin, ids[i]) ==> #[trigger] ok[i],
    decreases ids.len(),
{
    if ids.len() > 0 {
        let n = ids.len() - 1;
        let init = ids.drop_last();
        let oinit = ok.drop_last();
        assert(init.no_duplicates()) by {
            assert forall|i: int, j: int| 0 <= i < init.len() && 0 <= j < init.len() && i != j
                implies init[i] != init[j] by {
                assert(init[i] == ids[i] && init[j] == ids[j]);
            }
        }
        lemma_failures_are_exactly_the_refusals(init, origin, to, oinit);
        let rest = refused(init, origin, to, oinit);
        let u = refused(ids, origin, to, ok);
        assert forall|c: Endpoint| #[trigger] u.contains(c) implies ids.contains(c) && admits(
            to,
            origin,
            c,
        ) by {
            let k = choose|k: int| 0 <= k < u.len() && u[k] == c;
            if k < rest.len() {
                assert(rest[k] == c);
                assert(rest.contains(c));
                let m = choose|m: int| 0 <= m < init.len() && init[m] == c;
                assert(ids[m] == c);
            } else {
                assert(ids[n] == c);
            }
        }
        assert forall|i: int| 0 <= i < ids.len() implies (u.contains(#[trigger] ids[i]) <==> (
        admits(to, origin, ids[i]) && !ok[i])) by {
            if i < n {
                assert(init[i] == ids[i]);
                assert(oinit[i] == ok[i]);
                assert(ids[i] != ids[n]);
                if u.contains(ids[i]) {
                    let k = choose|k: int| 0 <= k < u.len() && u[k] == ids[i];
                    if k < rest.len() {
                        assert(rest[k] == ids[i]);
                    }
                }
                if rest.contains(ids[i]) {
                    let k = choose|k: int| 0 <= k < rest.len() && rest[k] == ids[i];
                    assert(u[k] == ids[i]);
                }
            } else {
                if admits(to, origin, ids[n]) && !ok[n] {
                    assert(u[u.len() - 1] == ids[n]);
                } else {
                    if u.contains(ids[n]) {
                        let k = choose|k: int| 0 <= k < u.len() && u[k] == ids[n];
                        assert(rest.contains(ids[n]));
                        let m = choose|m: int| 0 <= m < init.len() && init[m] == ids[n];
                        assert(ids[m] == ids[n]);
                    }
                }
            }
        }
        if u.len() == 0 {
            assert forall|i: int| 0 <= i < ids.len() && admits(to, origin, ids[i]) implies #[trigger] ok[i] by {
                if !ok[i] {
                    assert(u.contains(ids[i]));
                }
            }
        }
        if forall|i: int| 0 <= i < ids.len() && admits(to, origin, ids[i]) ==> #[trigger] ok[i] {
            assert forall|i: int| 0 <= i < init.len() && admits(to, origin, init[i]) implies #[trigger] oinit[i] by {
                assert(ok[i] == oinit[i] && ids[i] == init[i]);
            }
        }
    }
}

/// Two sends that both reach a queue leave their texts in it in the order
/// they were sent, after what it held before.
pub proof fn lemma_sends_keep_their_order(
    before: Seq<Seq<char>>,
    middle: Seq<Seq<char>>,
    after: Seq<Seq<char>>,
    first: Seq<char>,
    second: Seq<char>,
)
    requires
        middle == before.push(first),
        after == middle.push(second),
    ensures
        after == before + seq![first, second],
{
    assert(after =~= before + seq![first, second]);
}

/// The live connections of a server, each with the sending side of its
/// outbound queue. An identity is registered at most once.
pub struct Registry {
    entries: Vec<(Endpoint, Outbound)>,
    taken: Ghost<Seq<Seq<Seq<char>>>>,
}

impl View for Registry {
    type V = Seq<(Endpoint, Outbound)>;

    closed spec fn view(&self) -> Seq<(Endpoint, Outbound)> {
        self.entries@
    }
}

impl Registry {
    /// For each entry, in registry order, the texts its queue has taken
    /// through this registry since the entry was registered.
    pub closed spec fn taken(&self) -> Seq<Seq<Seq<char>>> {
        self.taken@
    }

    /// No identity is registered twice, and each entry has its record.
    pub open spec fn wf(&self) -> bool {
        &&& ids_of(self@).no_duplicates()
        &&& self.taken().len() == self@.len()
    }

    /// The registered identities, in registry order.
    pub open spec fn ids(&self) -> Seq<Endpoint> {
        ids_of(self@)
    }

    /// An empty registry.
    pub fn new() -> (r: Registry)
        ensures
            r@ == Seq::<(Endpoint, Outbound)>::empty(),
            r.wf(),
    {
        let r = Registry { entries: Vec::new(), taken: Ghost(Seq::empty()) };
        assert(ids_of(r@) =~= Seq::<Endpoint>::empty());
        r
    }

    /// Where `id` stands, if it is registered.
    fn position(&self, id: Endpoint) -> (r: Option<usize>)
        ensures
            match r {
                Some(i) => i < self@.len() && self@[i as int].0 == id,
                None => !self.ids().contains(id),
            },
    {
        let mut i: usize = 0;
        while i < self.entries.len()
            invariant
                i <= self.entries@.len(),
                forall|j: int| 0 <= j < i ==> self.entries@[j].0 != id,
            decreases self.entries@.len() - i,
        {
            if self.entries[i].0 == id {
                return Some(i);
            }
            i = i + 1;
        }
        assert(!self.ids().contains(id)) by {
            if self.ids().contains(id) {
                let k = choose|k: int| 0 <= k < self.ids().len() && self.ids()[k] == id;
                assert(self.entries@[k].0 == id);
            }
        }
        None
    }

    /// Whether `id` is registered.
    pub fn contains(&self, id: Endpoint) -> (r: bool)
        ensures
            r == self.ids().contains(id),
    {
        let p = self.position(id);
        proof {
            if let Some(i) = p {
                assert(self.ids()[i as int] == id);
            }
        }
        p.is_some()
    }

    /// The number of registered connections.
    pub fn len(&self) -> (r: usize)
        ensures
            r == self@.len(),
    {
        self.entries.len()
    }

    /// Registers `id` with its outbound queue, whose record starts empty; a
    /// stale entry for the same identity is overwritten in place.
    pub fn register(&mut self, id: Endpoint, queue: Outbound)
        requires
            old(self).wf(),
        ensures
            final(self).wf(),
            final(self).ids().contains(id),
            old(self).ids().contains(id) ==> exists|i: int|
                0 <= i < old(self)@.len() && old(self)@[i].0 == id && final(self)@ == old(
                    self,
                )@.update(i, (id, queue)) && final(self).taken() == old(self).taken().update(
                    i,
                    Seq::empty(),
                ),
            !old(self).ids().contains(id) ==> final(self)@ == old(self)@.push((id, queue))
                && final(self).taken() == old(self).taken().push(Seq::empty()),
    {
        let ghost before = self@;
        match self.position(id) {
            Some(i) => {
                self.entries.set(i, (id, queue));
                self.taken = Ghost(self.taken@.update(i as int, Seq::empty()));
                proof {
                    assert(ids_of(self@) =~= ids_of(before));
                    assert(ids_of(self@)[i as int] == id);
                }
            },
            None => {
                self.entries.push((id, queue));
                self.taken = Ghost(self.taken@.push(Seq::empty()));
                proof {
                    assert(ids_of(self@) =~= ids_of(before).push(id));
                    assert(ids_of(self@)[before.len() as int] == id);
                    assert forall|a: int, b: int|
                        0 <= a < ids_of(self@).len() && 0 <= b < ids_of(self@).len() && a != b
                        implies ids_of(self@)[a] != ids_of(self@)[b] by {
                        if a == before.len() {
                            assert(ids_of(before).contains(ids_of(before)[b]));
                        } else if b == before.len() {
                            assert(ids_of(before).contains(ids_of(before)[a]));
                        }
                    }
                }
            },
        }
    }

    /// Removes `id` with its record; removing an identity that is not
    /// registered changes nothing.
    pub fn deregister(&mut self, id: Endpoint)
        requires
            old(self).wf(),
        ensures
            final(self).wf(),
            !final(self).ids().contains(id),
            old(self).ids().contains(id) ==> exists|i: int|
                0 <= i < old(self)@.len() && old(self)@[i].0 == id && final(self)@ == old(
                    self,
                )@.remove(i) && final(self).taken() == old(self).taken().remove(i),
            !old(self).ids().contains(id) ==> final(self)@ == old(self)@ && final(self).taken()
                == old(self).taken(),
    {
        let ghost before = self@;
        match self.position(id) {
            Some(i) => {
                self.entries.remove(i);
                self.taken = Ghost(self.taken@.remove(i as int));
                proof {
                    let ib = ids_of(before);
                    assert(ib[i as int] == id);
                    assert(ids_of(self@) =~= ib.remove(i as int));
                    assert forall|a: int, b: int|
                        0 <= a < ids_of(self@).len() && 0 <= b < ids_of(self@).len() && a != b
                        implies ids_of(self@)[a] != ids_of(self@)[b] by {
                        let a2 = if a < i { a } else { a + 1 };
                        let b2 = if b < i { b } else { b + 1 };
                        assert(ids_of(self@)[a] == ib[a2]);
                        assert(ids_of(self@)[b] == ib[b2]);
                    }
                    if ids_of(self@).contains(id) {
                        let k = choose|k: int| 0 <= k < ids_of(self@).len() && ids_of(self@)[k] == id;
                        let k2 = if k < i { k } else { k + 1 };
                        assert(ib[k2] == id && ib[i as int] == id);
                    }
                }
            },
            None => {},
        }
    }

    /// The identities that a send in scope `to` from `origin` reaches, in
    /// registry order.
    pub fn resolve(&self, origin: Endpoint, to: To) -> (r: Vec<Endpoint>)
        ensures
            r@ == selected(self.ids(), origin, to),
    {
        let mut targets: Vec<Endpoint> = Vec::new();
        let mut i: usize = 0;
        while i < self.entries.len()
            invariant
                i <= self.entries@.len(),
                targets@ == selected(ids_of(self.entries@).take(i as int), origin, to),
            decreases self.entries@.len() - i,
        {
            let ghost ids = ids_of(self.entries@);
            assert(ids.take(i + 1).drop_last() =~= ids.take(i as int));
            assert(ids.take(i + 1).last() == self.entries@[i as int].0);
            let c = self.entries[i].0;
            if scope_admits(to, origin, c) {
                targets.push(c);
            }
            i = i + 1;
        }
        assert(ids_of(self.entries@).take(i as int) =~= self.ids());
        targets
    }

    /// Hands `text` to the queue of every connection that `to` selects from
    /// `origin`, in registry order, once each. A refusal does not stop the
    /// others: the result names every recipient whose queue refused it. A
    /// send to `Origin` from a connection that is no longer registered
    /// reports `ClientNotFound` and touches no queue. The entries themselves
    /// never change.
    pub fn send(&mut self, origin: Endpoint, text: &String, to: To) -> (r: Result<(), WsError>)
        requires
            old(self).wf(),
        ensures
            final(self)@ == old(self)@,
            final(self).wf(),
            to == To::Origin && !old(self).ids().contains(origin) ==> (r matches Err(
                WsError::ClientNotFound,
            )) && final(self).taken() == old(self).taken(),
            !(to == To::Origin && !old(self).ids().contains(origin)) ==> exists|ok: Seq<bool>|
                ok.len() == old(self)@.len() && reports(r, refused(old(self).ids(), origin, to, ok))
                    && forall|j: int|
                    0 <= j < old(self)@.len() ==> #[trigger] final(self).taken()[j] == after_send(
                        old(self).taken()[j],
                        old(self).ids()[j],
                        origin,
                        to,
                        ok[j],
                        text@,
                    ),
    {
        if to == To::Origin && !self.contains(origin) {
            return Err(WsError::ClientNotFound);
        }
        let ghost ids = self.ids();
        let ghost entries0 = self@;
        let ghost start = self.taken@;
        let ghost mut ok: Seq<bool> = Seq::empty();
        let mut failed: Vec<Endpoint> = Vec::new();
        let mut i: usize = 0;
        while i < self.entries.len()
            invariant
                ids == ids_of(self.entries@),
                self@ == entries0,
                i <= self.entries@.len(),
                self.taken@.len() == start.len(),
                start.len() == self.entries@.len(),
                ok.len() == i,
                failed@ == refused(ids.take(i as int), origin, to, ok),
                forall|j: int|
                    0 <= j < i ==> #[trigger] self.taken@[j] == after_send(
                        start[j],
                        ids[j],
                        origin,
                        to,
                        ok[j],
                        text@,
                    ),
                forall|j: int| i <= j < start.len() ==> #[trigger] self.taken@[j] == start[j],
            decreases self.entries@.len() - i,
        {
            assert(ids.take(i + 1).drop_last() =~= ids.take(i as int));
            assert(ids.take(i + 1)[i as int] == self.entries@[i as int].0);
            let c = self.entries[i].0;
            if scope_admits(to, origin, c) {
                let took = enqueue_text(&self.entries[i].1, text);
                if took {
                    self.taken = Ghost(self.taken@.update(i as int, self.taken@[i as int].push(text@)));
                } else {
                    failed.push(c);
                }
                proof {
                    let prev = ok;
                    ok = ok.push(took);
                    assert(ok.drop_last() =~= prev);
                }
            } else {
                proof {
                    let prev = ok;
                    ok = ok.push(true);
                    assert(ok.drop_last() =~= prev);
                }
            }
            i = i + 1;
        }
        assert(ids.take(i as int) =~= ids);
        if failed.len() > 0 {
            Err(WsError::FailedToSend(failed))
        } else {
            Ok(())
        }
    }
}

} // verus!
