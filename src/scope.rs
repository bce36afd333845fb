//! Connection identities and the selection of broadcast recipients.
use vstd::prelude::*;

verus! {

/// The network endpoint that identifies one live connection: an IPv6
/// address (IPv4 addresses in their IPv6-mapped form) and a port.
#[derive(Clone, Copy, Debug, PartialEq, Eq, Structural)]
pub struct Endpoint {
    pub ip: u128,
    pub port: u16,
}

/// Who a message is sent to.
/// `Origin`: the connection whose frame triggered the handler.
/// `NonOrigin`: every registered connection except that one.
/// `All`: every registered connection.
#[derive(Clone, Copy, Debug, PartialEq, Eq, Structural)]
pub enum To {
    Origin,
    NonOrigin,
    All,
}

/// Whether `to`, sent on behalf of `origin`, reaches the connection `c`.
pub open spec fn admits(to: To, origin: Endpoint, c: Endpoint) -> bool {
    match to {
        To::Origin => c == origin,
        To::NonOrigin => c != origin,
        To::All => true,
    }
}

/// The recipients of a send in scope `to` from `origin`, taken from the
/// registered identities `ids` in registry order.
pub open spec fn selected(ids: Seq<Endpoint>, origin: Endpoint, to: To) -> Seq<Endpoint>
    decreases ids.len(),
{
    if ids.len() == 0 {
        Seq::empty()
    } else {
        let rest = selected(ids.drop_last(), origin, to);
        if admits(to, origin, ids.last()) {
            rest.push(ids.last())
        } else {
            rest
        }
    }
}

/// Exec form of `admits`.
pub fn scope_admits(to: To, origin: Endpoint, c: Endpoint) -> (r: bool)
    ensures
        r == admits(to, origin, c),
{
    match to {
        To::Origin => c == origin,
        To::NonOrigin => c != origin,
        To::All => true,
    }
}

/// A connection is selected exactly when it is registered and the scope
/// admits it.
pub proof fn lemma_selected_contains(ids: Seq<Endpoint>, origin: Endpoint, to: To, c: Endpoint)
    ensures
        selected(ids, origin, to).contains(c) <==> (ids.contains(c) && admits(to, origin, c)),
    decreases ids.len(),
{
    if ids.len() > 0 {
        lemma_selected_contains(ids.drop_last(), origin, to, c);
        let rest = selected(ids.drop_last(), origin, to);
        assert(ids =~= ids.drop_last().push(ids.last()));
        if admits(to, origin, ids.last()) {
            assert(rest.push(ids.last()).contains(c) <==> (rest.contains(c) || c == ids.last())) by {
                if rest.push(ids.last()).contains(c) {
                    let k = choose|k: int| 0 <= k < rest.len() + 1 && rest.push(ids.last())[k] == c;
                    if k < rest.len() {
                        assert(rest[k] == c);
                    }
                }
                if c == ids.last() {
                    assert(rest.push(ids.last())[rest.len() as int] == c);
                }
                if rest.contains(c) {
                    let k = choose|k: int| 0 <= k < rest.len() && rest[k] == c;
                    assert(rest.push(ids.last())[k] == c);
                }
            }
        }
        assert(ids.contains(c) <==> (ids.drop_last().contains(c) || c == ids.last())) by {
            if ids.contains(c) {
                let k = choose|k: int| 0 <= k < ids.len() && ids[k] == c;
                if k < ids.len() - 1 {
                    assert(ids.drop_last()[k] == c);
                }
            }
            if c == ids.last() {
                assert(ids[ids.len() - 1] == c);
            }
            if ids.drop_last().contains(c) {
                let k = choose|k: int| 0 <= k < ids.len() - 1 && ids.drop_last()[k] == c;
                assert(ids[k] == c);
            }
        }
    }
}

/// Selecting from identities without repeats yields no repeats.
pub proof fn lemma_selected_no_duplicates(ids: Seq<Endpoint>, origin: Endpoint, to: To)
    requires
        ids.no_duplicates(),
    ensures
        selected(ids, origin, to).no_duplicates(),
    decreases ids.len(),
{
    if ids.len() > 0 {
        let init = ids.drop_last();
        assert(init.no_duplicates()) by {
            assert forall|i: int, j: int| 0 <= i < init.len() && 0 <= j < init.len() && i != j
                implies init[i] != init[j] by {
                assert(init[i] == ids[i] && init[j] == ids[j]);
            }
        }
        lemma_selected_no_duplicates(init, origin, to);
        let rest = selected(init, origin, to);
        if admits(to, origin, ids.last()) {
            lemma_selected_contains(init, origin, to, ids.last());
            assert(!init.contains(ids.last())) by {
                if init.contains(ids.last()) {
                    let k = choose|k: int| 0 <= k < init.len() && init[k] == ids.last();
                    assert(ids[k] == ids[ids.len() - 1]);
                }
            }
            let s = rest.push(ids.last());
            assert forall|i: int, j: int| 0 <= i < s.len() && 0 <= j < s.len() && i != j
                implies s[i] != s[j] by {
                if i == rest.len() {
                    assert(rest[j] == s[j]);
                } else if j == rest.len() {
                    assert(rest[i] == s[i]);
                }
            }
        }
    }
}

/// A broadcast to `All` reaches every registered connection, the origin
/// included, once each and no other.
pub proof fn lemma_all_reaches_every_connection_once(ids: Seq<Endpoint>, origin: Endpoint)
    requires
        ids.no_duplicates(),
    ensures
        selected(ids, origin, To::All).no_duplicates(),
        forall|c: Endpoint| #[trigger]
            selected(ids, origin, To::All).contains(c) <==> ids.contains(c),
{
    lemma_selected_no_duplicates(ids, origin, To::All);
    assert forall|c: Endpoint| #[trigger]
        selected(ids, origin, To::All).contains(c) <==> ids.contains(c) by {
        lemma_selected_contains(ids, origin, To::All, c);
    }
}

/// A broadcast to `NonOrigin` skips the origin and reaches every other
/// registered connection once.
pub proof fn lemma_non_origin_skips_origin(ids: Seq<Endpoint>, origin: Endpoint)
    requires
        ids.no_duplicates(),
    ensures
        selected(ids, origin, To::NonOrigin).no_duplicates(),
        !selected(ids, origin, To::NonOrigin).contains(origin),
        forall|c: Endpoint| #[trigger]
            selected(ids, origin, To::NonOrigin).contains(c) <==> (ids.contains(c) && c != origin),
{
    lemma_selected_no_duplicates(ids, origin, To::NonOrigin);
    lemma_selected_contains(ids, origin, To::NonOrigin, origin);
    assert forall|c: Endpoint| #[trigger]
        selected(ids, origin, To::NonOrigin).contains(c) <==> (ids.contains(c) && c != origin) by {
        lemma_selected_contains(ids, origin, To::NonOrigin, c);
    }
}

/// A send to `Origin` reaches the origin alone, once, if it is registered.
pub proof fn lemma_origin_reaches_only_origin(ids: Seq<Endpoint>, origin: Endpoint)
    requires
        ids.no_duplicates(),
    ensures
        ids.contains(origin) ==> selected(ids, origin, To::Origin) == seq![origin],
        !ids.contains(origin) ==> selected(ids, origin, To::Origin).len() == 0,
{
    let s = selected(ids, origin, To::Origin);
    lemma_selected_no_duplicates(ids, origin, To::Origin);
    lemma_selected_contains(ids, origin, To::Origin, origin);
    assert forall|i: int| 0 <= i < s.len() implies s[i] == origin by {
        lemma_selected_contains(ids, origin, To::Origin, s[i]);
        assert(s.contains(s[i]));
    }
    if s.len() > 1 {
        assert(s[0] == s[1]);
    }
    if ids.contains(origin) {
        assert(s.len() >= 1);
        assert(s =~= seq![origin]);
    } else {
        if s.len() > 0 {
            assert(s.contains(s[0]));
        }
    }
}

/// A connection that is not registered (for one, after it has been
/// deregistered) is a recipient of no send, whatever its scope and origin.
pub proof fn lemma_unregistered_is_never_a_recipient(
    ids: Seq<Endpoint>,
    c: Endpoint,
    origin: Endpoint,
    to: To,
)
    requires
        !ids.contains(c),
    ensures
        !selected(ids, origin, to).contains(c),
{
    lemma_selected_contains(ids, origin, to, c);
}

} // verus!
