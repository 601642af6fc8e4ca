//! The relay hub's connection and session state machine.
//!
//! The hub tracks, for every accepted connection, which session it sits in,
//! and for every session the ordered list of its members (insertion-ordered
//! by first join). Joining, leaving and disconnecting keep two invariants:
//! every member listed under a session is a connection whose current session
//! is that very session, and session member lists are non-empty and free of
//! duplicates (an emptied session is dropped). The mathematical transitions
//! live beside the executable state so that laws about sequences of
//! operations can be stated and proved once, at the specification level.

use vstd::prelude::*;

use crate::assoc::{
    assoc_lookup, assoc_remove, assoc_update, contains_string, differs_from, find_key,
    keys_distinct, lemma_filter_distinct, lemma_filter_subset, lemma_lookup_absent,
    lemma_lookup_at, lemma_lookup_cases, lemma_lookup_remove, lemma_lookup_update,
    lemma_remove_absent,
    lemma_remove_at, lemma_remove_keys_distinct, lemma_update_absent, lemma_update_at,
    lemma_update_keys_distinct, remove_string,
};

verus! {

/// The abstract hub state: connection and session tables as sequences of
/// key/value pairs with distinct keys.
pub struct HubView {
    /// Connection id, mapped to the session the connection sits in, if any.
    pub connections: Seq<(Seq<char>, Option<Seq<char>>)>,
    /// Session id, mapped to the ordered list of member connection ids.
    pub sessions: Seq<(Seq<char>, Seq<Seq<char>>)>,
}

/// The session a connection currently sits in, if it is connected and joined.
pub open spec fn session_of(
    connections: Seq<(Seq<char>, Option<Seq<char>>)>,
    c: Seq<char>,
) -> Option<Seq<char>> {
    match assoc_lookup(connections, c) {
        Some(Some(s)) => Some(s),
        _ => None,
    }
}

/// Whether `c` is listed among the members of session `s`.
pub open spec fn session_has(
    sessions: Seq<(Seq<char>, Seq<Seq<char>>)>,
    s: Seq<char>,
    c: Seq<char>,
) -> bool {
    match assoc_lookup(sessions, s) {
        Some(m) => m.contains(c),
        None => false,
    }
}

/// The members of session `s`, or the empty sequence if it does not exist.
pub open spec fn members_of(
    sessions: Seq<(Seq<char>, Seq<Seq<char>>)>,
    s: Seq<char>,
) -> Seq<Seq<char>> {
    match assoc_lookup(sessions, s) {
        Some(m) => m,
        None => Seq::empty(),
    }
}

/// Takes `c` out of the member list of `s_old`, dropping the session when it
/// empties.
pub open spec fn detach(
    sessions: Seq<(Seq<char>, Seq<Seq<char>>)>,
    s_old: Seq<char>,
    c: Seq<char>,
) -> Seq<(Seq<char>, Seq<Seq<char>>)> {
    match assoc_lookup(sessions, s_old) {
        Some(m) => {
            let m2 = m.filter(differs_from(c));
            if m2.len() == 0 {
                assoc_remove(sessions, s_old)
            } else {
                assoc_update(sessions, s_old, m2)
            }
        },
        None => sessions,
    }
}

/// A fresh connection: registered without a session.
pub open spec fn hub_register(h: HubView, c: Seq<char>) -> HubView {
    HubView { connections: assoc_update(h.connections, c, None), sessions: h.sessions }
}

/// `c` joins session `s`: it leaves its previous session, its connection
/// entry now points at `s`, and it is appended to the member list of `s`
/// unless already listed.
pub open spec fn hub_join(h: HubView, c: Seq<char>, s: Seq<char>) -> HubView {
    let sess0 = match session_of(h.connections, c) {
        Some(s_old) => if s_old != s {
            detach(h.sessions, s_old, c)
        } else {
            h.sessions
        },
        None => h.sessions,
    };
    let members = members_of(sess0, s);
    let members2 = if members.contains(c) {
        members
    } else {
        members.push(c)
    };
    HubView {
        connections: assoc_update(h.connections, c, Some(s)),
        sessions: assoc_update(sess0, s, members2),
    }
}

/// `c` leaves its current session, if any.
pub open spec fn hub_leave(h: HubView, c: Seq<char>) -> HubView {
    match session_of(h.connections, c) {
        Some(s_old) => HubView {
            connections: assoc_update(h.connections, c, None),
            sessions: detach(h.sessions, s_old, c),
        },
        None => h,
    }
}

/// `c`'s socket closed: its connection entry goes away together with its
/// session membership.
pub open spec fn hub_remove(h: HubView, c: Seq<char>) -> HubView {
    let sess = match session_of(h.connections, c) {
        Some(s_old) => detach(h.sessions, s_old, c),
        None => h.sessions,
    };
    HubView { connections: assoc_remove(h.connections, c), sessions: sess }
}

/// A member list has no repeated entries.
pub open spec fn nodup(m: Seq<Seq<char>>) -> bool {
    forall|j: int, l: int| 0 <= j < l < m.len() ==> m[j] != m[l]
}

/// What a session's member list owes the connection table: it is non-empty,
/// free of duplicates, and every listed member's connection entry points back
/// at this very session.
pub open spec fn session_entry_ok(
    connections: Seq<(Seq<char>, Option<Seq<char>>)>,
    s: Seq<char>,
    m: Seq<Seq<char>>,
) -> bool {
    &&& m.len() > 0
    &&& nodup(m)
    &&& forall|j: int|
        0 <= j < m.len() ==> assoc_lookup(connections, #[trigger] m[j]) == Some(Some(s))
}

/// The hub invariants: distinct table keys; every session entry in order with
/// respect to the connection table; and every connection that claims a
/// session listed among that session's members.
pub open spec fn hub_wf(h: HubView) -> bool {
    &&& keys_distinct(h.connections)
    &&& keys_distinct(h.sessions)
    &&& forall|s: Seq<char>|
        #![trigger assoc_lookup(h.sessions, s)]
        match assoc_lookup(h.sessions, s) {
            Some(m) => session_entry_ok(h.connections, s, m),
            None => true,
        }
    &&& forall|k: Seq<char>|
        #![trigger assoc_lookup(h.connections, k)]
        match assoc_lookup(h.connections, k) {
            Some(Some(s)) => session_has(h.sessions, s, k),
            _ => true,
        }
}

/// How the session table reads back after a member is detached: the touched
/// session has lost the member (and is gone if that emptied it), every other
/// session is as before.
proof fn lemma_detach_lookup(
    sessions: Seq<(Seq<char>, Seq<Seq<char>>)>,
    s_old: Seq<char>,
    c: Seq<char>,
)
    requires
        keys_distinct(sessions),
    ensures
        keys_distinct(detach(sessions, s_old, c)),
        forall|s2: Seq<char>|
            #![trigger assoc_lookup(detach(sessions, s_old, c), s2)]
            assoc_lookup(detach(sessions, s_old, c), s2) == if s2 == s_old {
                match assoc_lookup(sessions, s_old) {
                    Some(m) => {
                        let m2 = m.filter(differs_from(c));
                        if m2.len() == 0 {
                            None
                        } else {
                            Some(m2)
                        }
                    },
                    None => None::<Seq<Seq<char>>>,
                }
            } else {
                assoc_lookup(sessions, s2)
            },
{
    match assoc_lookup(sessions, s_old) {
        Some(m) => {
            let m2 = m.filter(differs_from(c));
            if m2.len() == 0 {
                lemma_remove_keys_distinct(sessions, s_old);
                assert forall|s2: Seq<char>| true implies #[trigger] assoc_lookup(
                    detach(sessions, s_old, c),
                    s2,
                ) == if s2 == s_old {
                    None::<Seq<Seq<char>>>
                } else {
                    assoc_lookup(sessions, s2)
                } by {
                    lemma_lookup_remove(sessions, s_old, s2);
                }
            } else {
                lemma_update_keys_distinct(sessions, s_old, m2);
                assert forall|s2: Seq<char>| true implies #[trigger] assoc_lookup(
                    detach(sessions, s_old, c),
                    s2,
                ) == if s2 == s_old {
                    Some(m2)
                } else {
                    assoc_lookup(sessions, s2)
                } by {
                    lemma_lookup_update(sessions, s_old, m2, s2);
                }
            }
        },
        None => {},
    }
}

/// Registering a fresh connection keeps the hub invariants.
pub proof fn lemma_register_preserves_wf(h: HubView, c: Seq<char>)
    requires
        hub_wf(h),
        assoc_lookup(h.connections, c) is None,
    ensures
        hub_wf(hub_register(h, c)),
{
    let h2 = hub_register(h, c);
    lemma_update_keys_distinct(h.connections, c, None);
    assert forall|s2: Seq<char>| true implies match #[trigger] assoc_lookup(h2.sessions, s2) {
        Some(m) => session_entry_ok(h2.connections, s2, m),
        None => true,
    } by {
        match assoc_lookup(h.sessions, s2) {
            Some(m) => {
                assert forall|j: int| 0 <= j < m.len() implies assoc_lookup(
                    h2.connections,
                    #[trigger] m[j],
                ) == Some(Some(s2)) by {
                    lemma_lookup_update(h.connections, c, None, m[j]);
                }
            },
            None => {},
        }
    }
    assert forall|k: Seq<char>| true implies match #[trigger] assoc_lookup(h2.connections, k) {
        Some(Some(s2)) => session_has(h2.sessions, s2, k),
        _ => true,
    } by {
        lemma_lookup_update(h.connections, c, None, k);
    }
}

/// Leaving a session keeps the hub invariants.
pub proof fn lemma_leave_preserves_wf(h: HubView, c: Seq<char>)
    requires
        hub_wf(h),
    ensures
        hub_wf(hub_leave(h, c)),
{
    match session_of(h.connections, c) {
        Some(s_old) => {
            let h2 = hub_leave(h, c);
            lemma_update_keys_distinct(h.connections, c, None::<Seq<char>>);
            lemma_detach_lookup(h.sessions, s_old, c);
            lemma_detach_entries_ok(h, s_old, c);
            assert forall|s2: Seq<char>| true implies match #[trigger] assoc_lookup(
                h2.sessions,
                s2,
            ) {
                Some(m) => session_entry_ok(h2.connections, s2, m),
                None => true,
            } by {
                match assoc_lookup(h2.sessions, s2) {
                    Some(m) => {
                        assert forall|j: int| 0 <= j < m.len() implies assoc_lookup(
                            h2.connections,
                            #[trigger] m[j],
                        ) == Some(Some(s2)) by {
                            assert(m[j] != c) by {
                                if m[j] == c {
                                    assert(m.contains(c));
                                }
                            }
                            lemma_lookup_update(h.connections, c, None::<Seq<char>>, m[j]);
                        }
                    },
                    None => {},
                }
            }
            assert forall|k: Seq<char>| true implies match #[trigger] assoc_lookup(
                h2.connections,
                k,
            ) {
                Some(Some(s2)) => session_has(h2.sessions, s2, k),
                _ => true,
            } by {
                lemma_lookup_update(h.connections, c, None::<Seq<char>>, k);
                match assoc_lookup(h2.connections, k) {
                    Some(Some(s2)) => {
                        let m = members_of(h.sessions, s2);
                        assert(assoc_lookup(h.sessions, s2) == Some(m));
                        assert(m.contains(k));
                        if s2 == s_old {
                            let l = choose|l: int| 0 <= l < m.len() && m[l] == k;
                            m.lemma_filter_contains(differs_from(c), l);
                            let m2 = m.filter(differs_from(c));
                            assert(m2.contains(k));
                            assert(m2.len() > 0);
                        }
                    },
                    _ => {},
                }
            }
        },
        None => {},
    }
}

/// After a detach, every surviving session entry is still in order with
/// respect to the old connection table, and none of them lists `c`.
proof fn lemma_detach_entries_ok(h: HubView, s_old: Seq<char>, c: Seq<char>)
    requires
        hub_wf(h),
        session_of(h.connections, c) == Some(s_old),
    ensures
        forall|s2: Seq<char>|
            #![trigger assoc_lookup(detach(h.sessions, s_old, c), s2)]
            match assoc_lookup(detach(h.sessions, s_old, c), s2) {
                Some(m) => session_entry_ok(h.connections, s2, m) && !m.contains(c),
                None => true,
            },
{
    let det = detach(h.sessions, s_old, c);
    lemma_detach_lookup(h.sessions, s_old, c);
    assert forall|s2: Seq<char>| true implies match #[trigger] assoc_lookup(det, s2) {
        Some(m) => session_entry_ok(h.connections, s2, m) && !m.contains(c),
        None => true,
    } by {
        match assoc_lookup(det, s2) {
            Some(m2) => {
                if s2 == s_old {
                    let m = members_of(h.sessions, s_old);
                    assert(assoc_lookup(h.sessions, s_old) == Some(m));
                    assert(m2 == m.filter(differs_from(c)));
                    lemma_filter_distinct(m, differs_from(c));
                    lemma_filter_subset(m, differs_from(c));
                    assert forall|j: int| 0 <= j < m2.len() implies assoc_lookup(
                        h.connections,
                        #[trigger] m2[j],
                    ) == Some(Some(s2)) && m2[j] != c by {
                        m.lemma_filter_pred(differs_from(c), j);
                        assert(m.contains(m2[j]));
                        let l = choose|l: int| 0 <= l < m.len() && m[l] == m2[j];
                        assert(assoc_lookup(h.connections, m[l]) == Some(Some(s_old)));
                    }
                } else {
                    assert(assoc_lookup(h.sessions, s2) == Some(m2));
                    assert forall|j: int| 0 <= j < m2.len() implies assoc_lookup(
                        h.connections,
                        #[trigger] m2[j],
                    ) == Some(Some(s2)) && m2[j] != c by {
                        assert(assoc_lookup(h.connections, m2[j]) == Some(Some(s2)));
                    }
                }
            },
            None => {},
        }
    }
}

/// A closed socket's cleanup keeps the hub invariants.
pub proof fn lemma_remove_preserves_wf(h: HubView, c: Seq<char>)
    requires
        hub_wf(h),
    ensures
        hub_wf(hub_remove(h, c)),
{
    let h2 = hub_remove(h, c);
    lemma_remove_keys_distinct(h.connections, c);
    match session_of(h.connections, c) {
        Some(s_old) => {
            lemma_detach_lookup(h.sessions, s_old, c);
            lemma_detach_entries_ok(h, s_old, c);
            assert forall|s2: Seq<char>| true implies match #[trigger] assoc_lookup(
                h2.sessions,
                s2,
            ) {
                Some(m) => session_entry_ok(h2.connections, s2, m),
                None => true,
            } by {
                match assoc_lookup(h2.sessions, s2) {
                    Some(m) => {
                        assert forall|j: int| 0 <= j < m.len() implies assoc_lookup(
                            h2.connections,
                            #[trigger] m[j],
                        ) == Some(Some(s2)) by {
                            assert(m[j] != c);
                            lemma_lookup_remove(h.connections, c, m[j]);
                        }
                    },
                    None => {},
                }
            }
            assert forall|k: Seq<char>| true implies match #[trigger] assoc_lookup(
                h2.connections,
                k,
            ) {
                Some(Some(s2)) => session_has(h2.sessions, s2, k),
                _ => true,
            } by {
                lemma_lookup_remove(h.connections, c, k);
                match assoc_lookup(h2.connections, k) {
                    Some(Some(s2)) => {
                        let m = members_of(h.sessions, s2);
                        assert(assoc_lookup(h.sessions, s2) == Some(m));
                        assert(m.contains(k));
                        if s2 == s_old {
                            let l = choose|l: int| 0 <= l < m.len() && m[l] == k;
                            m.lemma_filter_contains(differs_from(c), l);
                            let m2 = m.filter(differs_from(c));
                            assert(m2.contains(k));
                            assert(m2.len() > 0);
                        }
                    },
                    _ => {},
                }
            }
        },
        None => {
            assert forall|s2: Seq<char>| true implies match #[trigger] assoc_lookup(
                h2.sessions,
                s2,
            ) {
                Some(m) => session_entry_ok(h2.connections, s2, m),
                None => true,
            } by {
                match assoc_lookup(h2.sessions, s2) {
                    Some(m) => {
                        assert forall|j: int| 0 <= j < m.len() implies assoc_lookup(
                            h2.connections,
                            #[trigger] m[j],
                        ) == Some(Some(s2)) by {
                            assert(assoc_lookup(h.connections, m[j]) == Some(Some(s2)));
                            lemma_lookup_remove(h.connections, c, m[j]);
                        }
                    },
                    None => {},
                }
            }
            assert forall|k: Seq<char>| true implies match #[trigger] assoc_lookup(
                h2.connections,
                k,
            ) {
                Some(Some(s2)) => session_has(h2.sessions, s2, k),
                _ => true,
            } by {
                lemma_lookup_remove(h.connections, c, k);
            }
        },
    }
}

/// Joining a session keeps the hub invariants.
pub proof fn lemma_join_preserves_wf(h: HubView, c: Seq<char>, s: Seq<char>)
    requires
        hub_wf(h),
        assoc_lookup(h.connections, c) is Some,
    ensures
        hub_wf(hub_join(h, c, s)),
{
    let h2 = hub_join(h, c, s);
    let sess0 = match session_of(h.connections, c) {
        Some(s_old) => if s_old != s {
            detach(h.sessions, s_old, c)
        } else {
            h.sessions
        },
        None => h.sessions,
    };
    let members = members_of(sess0, s);
    let members2 = if members.contains(c) {
        members
    } else {
        members.push(c)
    };
    let conns2 = assoc_update(h.connections, c, Some(s));
    lemma_update_keys_distinct(h.connections, c, Some(s));

    // The intermediate session table: distinct keys, entries in order with
    // respect to the old connection table, and `c` listed at most under `s`.
    assert(keys_distinct(sess0) && forall|s2: Seq<char>|
        #![trigger assoc_lookup(sess0, s2)]
        match assoc_lookup(sess0, s2) {
            Some(m) => session_entry_ok(h.connections, s2, m) && (s2 != s ==> !m.contains(c)),
            None => true,
        }) by {
        match session_of(h.connections, c) {
            Some(s_old) => {
                if s_old != s {
                    lemma_detach_lookup(h.sessions, s_old, c);
                    lemma_detach_entries_ok(h, s_old, c);
                } else {
                    assert forall|s2: Seq<char>| s2 != s implies match #[trigger] assoc_lookup(
                        sess0,
                        s2,
                    ) {
                        Some(m) => !m.contains(c),
                        None => true,
                    } by {
                        match assoc_lookup(sess0, s2) {
                            Some(m) => {
                                if m.contains(c) {
                                    let l = choose|l: int| 0 <= l < m.len() && m[l] == c;
                                    assert(assoc_lookup(h.connections, m[l]) == Some(Some(s2)));
                                }
                            },
                            None => {},
                        }
                    }
                }
            },
            None => {
                assert forall|s2: Seq<char>| true implies match #[trigger] assoc_lookup(
                    sess0,
                    s2,
                ) {
                    Some(m) => !m.contains(c),
                    None => true,
                } by {
                    match assoc_lookup(sess0, s2) {
                        Some(m) => {
                            if m.contains(c) {
                                let l = choose|l: int| 0 <= l < m.len() && m[l] == c;
                                assert(assoc_lookup(h.connections, m[l]) == Some(Some(s2)));
                            }
                        },
                        None => {},
                    }
                }
            },
        }
    }
    lemma_update_keys_distinct(sess0, s, members2);

    // The new member list is sound: non-empty, duplicate-free, with every
    // member's connection entry pointing at `s`.
    assert(members2.len() > 0);
    assert(nodup(members2)) by {
        if !members.contains(c) {
            assert(forall|j: int| 0 <= j < members.len() ==> members[j] != c);
            assert(forall|j: int|
                0 <= j < members2.len() ==> members2[j] == if j < members.len() {
                    members[j]
                } else {
                    c
                });
        }
    }
    assert(members2.contains(c)) by {
        if !members.contains(c) {
            assert(members2[members.len() as int] == c);
        }
    }
    assert forall|j: int| 0 <= j < members2.len() implies assoc_lookup(
        conns2,
        #[trigger] members2[j],
    ) == Some(Some(s)) by {
        lemma_lookup_update(h.connections, c, Some(s), members2[j]);
        if members2[j] != c {
            assert(members.contains(members2[j])) by {
                if j < members.len() {
                    assert(members[j] == members2[j]);
                }
            }
            assert(assoc_lookup(sess0, s) == Some(members));
            assert(assoc_lookup(h.connections, members2[j]) == Some(Some(s)));
        }
    }

    // Session entries of the final table.
    assert forall|s2: Seq<char>| true implies match #[trigger] assoc_lookup(h2.sessions, s2) {
        Some(m) => session_entry_ok(h2.connections, s2, m),
        None => true,
    } by {
        lemma_lookup_update(sess0, s, members2, s2);
        match assoc_lookup(h2.sessions, s2) {
            Some(m) => {
                if s2 == s {
                    assert(m == members2);
                } else {
                    assert(assoc_lookup(sess0, s2) == Some(m));
                    assert(!m.contains(c));
                    assert forall|j: int| 0 <= j < m.len() implies assoc_lookup(
                        conns2,
                        #[trigger] m[j],
                    ) == Some(Some(s2)) by {
                        assert(m[j] != c) by {
                            if m[j] == c {
                                assert(m.contains(c));
                            }
                        }
                        lemma_lookup_update(h.connections, c, Some(s), m[j]);
                    }
                }
            },
            None => {},
        }
    }

    // Every claimed session lists its claimant.
    assert forall|k: Seq<char>| true implies match #[trigger] assoc_lookup(h2.connections, k) {
        Some(Some(s2)) => session_has(h2.sessions, s2, k),
        _ => true,
    } by {
        lemma_lookup_update(h.connections, c, Some(s), k);
        match assoc_lookup(h2.connections, k) {
            Some(Some(s2)) => {
                lemma_lookup_update(sess0, s, members2, s2);
                if k == c {
                    assert(s2 == s);
                    assert(assoc_lookup(h2.sessions, s) == Some(members2));
                } else {
                    assert(assoc_lookup(h.connections, k) == Some(Some(s2)));
                    assert(session_has(h.sessions, s2, k));
                    let m_old = members_of(h.sessions, s2);
                    assert(assoc_lookup(h.sessions, s2) == Some(m_old));
                    assert(m_old.contains(k));
                    if s2 == s {
                        // The session being joined: its earlier members carry over.
                        assert(assoc_lookup(sess0, s) == assoc_lookup(h.sessions, s)) by {
                            match session_of(h.connections, c) {
                                Some(s_old) => {
                                    if s_old != s {
                                        lemma_detach_lookup(h.sessions, s_old, c);
                                    }
                                },
                                None => {},
                            }
                        }
                        assert(members == m_old);
                        assert(members2.contains(k)) by {
                            let l = choose|l: int| 0 <= l < members.len() && members[l] == k;
                            assert(members2[l] == k);
                        }
                        assert(assoc_lookup(h2.sessions, s) == Some(members2));
                    } else {
                        // Other sessions: untouched unless `k`'s session was the
                        // one `c` left, which only shrank around `k`.
                        match session_of(h.connections, c) {
                            Some(s_old) => {
                                if s_old != s {
                                    lemma_detach_lookup(h.sessions, s_old, c);
                                    if s2 == s_old {
                                        let l = choose|l: int|
                                            0 <= l < m_old.len() && m_old[l] == k;
                                        m_old.lemma_filter_contains(differs_from(c), l);
                                        let m2 = m_old.filter(differs_from(c));
                                        assert(m2.contains(k));
                                        assert(m2.len() > 0);
                                        assert(assoc_lookup(sess0, s2) == Some(m2));
                                    }
                                }
                            },
                            None => {},
                        }
                        assert(assoc_lookup(h2.sessions, s2) == assoc_lookup(sess0, s2));
                    }
                }
            },
            _ => {},
        }
    }
}

/// No connection id is listed under two different sessions.
pub proof fn lemma_member_of_one_session(h: HubView, c: Seq<char>, s1: Seq<char>, s2: Seq<char>)
    requires
        hub_wf(h),
        session_has(h.sessions, s1, c),
        session_has(h.sessions, s2, c),
    ensures
        s1 == s2,
{
    let m1 = members_of(h.sessions, s1);
    let m2 = members_of(h.sessions, s2);
    assert(assoc_lookup(h.sessions, s1) == Some(m1));
    assert(assoc_lookup(h.sessions, s2) == Some(m2));
    let j1 = choose|j: int| 0 <= j < m1.len() && m1[j] == c;
    let j2 = choose|j: int| 0 <= j < m2.len() && m2[j] == c;
    assert(assoc_lookup(h.connections, m1[j1]) == Some(Some(s1)));
    assert(assoc_lookup(h.connections, m2[j2]) == Some(Some(s2)));
}

/// A connection that joins a fresh session, leaves it, and joins it again
/// ends up in that session as its only member.
pub proof fn lemma_rejoin_single(h: HubView, c: Seq<char>, s: Seq<char>)
    requires
        hub_wf(h),
        assoc_lookup(h.connections, c) == Some(None::<Seq<char>>),
        assoc_lookup(h.sessions, s) is None,
    ensures
        ({
            let h3 = hub_join(hub_leave(hub_join(h, c, s), c), c, s);
            &&& hub_wf(h3)
            &&& assoc_lookup(h3.connections, c) == Some(Some(s))
            &&& assoc_lookup(h3.sessions, s) == Some(seq![c])
        }),
{
    let single = Seq::<Seq<char>>::empty().push(c);
    assert(!Seq::<Seq<char>>::empty().contains(c));

    let h1 = hub_join(h, c, s);
    lemma_join_preserves_wf(h, c, s);
    assert(h1.connections == assoc_update(h.connections, c, Some(s)));
    assert(h1.sessions == assoc_update(h.sessions, s, single));
    lemma_lookup_update(h.connections, c, Some(s), c);
    lemma_lookup_update(h.sessions, s, single, s);

    let h2 = hub_leave(h1, c);
    lemma_leave_preserves_wf(h1, c);
    assert(single.filter(differs_from(c)) =~= Seq::<Seq<char>>::empty()) by {
        reveal(Seq::filter);
        assert(single.last() == c);
        assert(!differs_from(c)(c));
        assert(single.drop_last() =~= Seq::<Seq<char>>::empty());
        assert(Seq::<Seq<char>>::empty().filter(differs_from(c)) =~= Seq::<Seq<char>>::empty());
    }
    assert(h2.connections == assoc_update(h1.connections, c, None::<Seq<char>>));
    assert(h2.sessions == assoc_remove(h1.sessions, s));
    lemma_lookup_update(h1.connections, c, None::<Seq<char>>, c);
    lemma_lookup_remove(h1.sessions, s, s);

    let h3 = hub_join(h2, c, s);
    lemma_join_preserves_wf(h2, c, s);
    assert(h3.connections == assoc_update(h2.connections, c, Some(s)));
    assert(h3.sessions == assoc_update(h2.sessions, s, single));
    lemma_lookup_update(h2.connections, c, Some(s), c);
    lemma_lookup_update(h2.sessions, s, single, s);
    assert(single =~= seq![c]);
}

/// Relies on `uuid::Uuid::new_v4` and its `Display` impl: a fresh random id,
/// formatted as 36 hyphenated lowercase hex characters. The value depends on
/// the process's randomness source, so nothing is said of which id comes
/// back.
#[verifier::external_body]
fn fresh_client_id() -> (r: String)
    ensures
        r@.len() == 36,
{
    uuid::Uuid::new_v4().to_string()
}

/// Takes `c` out of the member list of `s_old`, dropping the session when it
/// empties; the executable side of `detach`.
fn detach_member(sessions: &mut Vec<(String, Vec<String>)>, s_old: &String, c: &String)
    ensures
        final(sessions).deep_view() == detach(old(sessions).deep_view(), s_old@, c@),
{
    let ghost sv = sessions.deep_view();
    match find_key(sessions, s_old) {
        Some(si) => {
            proof {
                lemma_lookup_at(sv, s_old@, si as int);
            }
            let m2 = remove_string(&sessions[si].1, c);
            if m2.len() == 0 {
                sessions.remove(si);
                proof {
                    lemma_remove_at(sv, s_old@, si as int);
                    assert(sessions.deep_view() =~= sv.remove(si as int));
                }
            } else {
                let key = sessions[si].0.clone();
                sessions.set(si, (key, m2));
                proof {
                    let m = sv[si as int].1;
                    lemma_update_at(sv, s_old@, m.filter(differs_from(c@)), si as int);
                    assert(sessions.deep_view() =~= sv.update(
                        si as int,
                        (s_old@, m.filter(differs_from(c@))),
                    ));
                }
            }
        },
        None => {
            proof {
                lemma_lookup_absent(sv, s_old@);
            }
        },
    }
}

/// The hub's connection registry and session membership tables, keyed by
/// connection id and session id respectively, both insertion-ordered.
pub struct ServerState {
    /// Connection id, mapped to the session the connection sits in, if any.
    pub connections: Vec<(String, Option<String>)>,
    /// Session id, mapped to the ordered list of member connection ids.
    pub sessions: Vec<(String, Vec<String>)>,
}

impl View for ServerState {
    type V = HubView;

    open spec fn view(&self) -> HubView {
        HubView {
            connections: self.connections.deep_view(),
            sessions: self.sessions.deep_view(),
        }
    }
}

impl ServerState {
    /// A hub with no connections and no sessions.
    pub fn new() -> (r: ServerState)
        ensures
            r@.connections == Seq::<(Seq<char>, Option<Seq<char>>)>::empty(),
            r@.sessions == Seq::<(Seq<char>, Seq<Seq<char>>)>::empty(),
            hub_wf(r@),
    {
        let r = ServerState { connections: Vec::new(), sessions: Vec::new() };
        proof {
            assert(r@.connections =~= Seq::<(Seq<char>, Option<Seq<char>>)>::empty());
            assert(r@.sessions =~= Seq::<(Seq<char>, Seq<Seq<char>>)>::empty());
        }
        r
    }

    /// Whether a connection with this id is registered.
    pub fn has_connection(&self, id: &str) -> (r: bool)
        ensures
            r == (assoc_lookup(self@.connections, id@) is Some),
    {
        let key = id.to_owned();
        match find_key(&self.connections, &key) {
            Some(i) => {
                proof {
                    lemma_lookup_at(self@.connections, id@, i as int);
                }
                true
            },
            None => {
                proof {
                    lemma_lookup_absent(self@.connections, id@);
                }
                false
            },
        }
    }

    /// Assigns a fresh id to a newly accepted connection and registers it,
    /// handing the id back for the welcome frame. Returns nothing, with the
    /// state unchanged, in the vanishingly unlikely event that the random id
    /// is already taken.
    pub fn accept_connection(&mut self) -> (r: Option<String>)
        requires
            hub_wf(old(self)@),
        ensures
            hub_wf(final(self)@),
            match r {
                Some(id) => {
                    &&& id@.len() == 36
                    &&& final(self)@ == hub_register(old(self)@, id@)
                    &&& assoc_lookup(final(self)@.connections, id@) == Some(None::<Seq<char>>)
                },
                None => final(self)@ == old(self)@,
            },
    {
        let id = fresh_client_id();
        if self.has_connection(id.as_str()) {
            return None;
        }
        self.register_connection(id.as_str());
        proof {
            lemma_lookup_update(old(self)@.connections, id@, None::<Seq<char>>, id@);
        }
        Some(id)
    }

    /// Registers a freshly accepted connection, not yet in any session.
    pub fn register_connection(&mut self, id: &str)
        requires
            hub_wf(old(self)@),
            assoc_lookup(old(self)@.connections, id@) is None,
        ensures
            final(self)@ == hub_register(old(self)@, id@),
            hub_wf(final(self)@),
    {
        let ghost h0 = self@;
        proof {
            lemma_lookup_cases(h0.connections, id@);
            lemma_update_absent(h0.connections, id@, None::<Seq<char>>);
            lemma_register_preserves_wf(h0, id@);
        }
        self.connections.push((id.to_owned(), None));
        proof {
            assert(self.connections.deep_view() =~= h0.connections.push((id@, None)));
        }
    }

    /// The connection joins a session: it leaves any different session it was
    /// in, its connection entry now points at the new session, and it is
    /// appended to that session's member list unless already listed. Returns
    /// the member list after the join.
    pub fn join_session(&mut self, connection_id: &str, session_id: &str) -> (members: Vec<String>)
        requires
            hub_wf(old(self)@),
            assoc_lookup(old(self)@.connections, connection_id@) is Some,
        ensures
            final(self)@ == hub_join(old(self)@, connection_id@, session_id@),
            hub_wf(final(self)@),
            assoc_lookup(final(self)@.sessions, session_id@) == Some(members.deep_view()),
    {
        let c = connection_id.to_owned();
        let s = session_id.to_owned();
        let ghost h0 = self@;
        let ci = match find_key(&self.connections, &c) {
            Some(i) => i,
            None => {
                proof {
                    lemma_lookup_absent(h0.connections, c@);
                }
                vstd::pervasive::unreached()
            },
        };
        proof {
            lemma_lookup_at(h0.connections, c@, ci as int);
        }
        // Leave a previous, different session.
        let old_claim: Option<String> = match &self.connections[ci].1 {
            Some(x) => Some(x.clone()),
            None => None,
        };
        match &old_claim {
            Some(s_old) => {
                if !String::eq(s_old, &s) {
                    detach_member(&mut self.sessions, s_old, &c);
                }
            },
            None => {},
        }
        let ghost sess0 = self.sessions.deep_view();
        // Point the connection entry at the new session.
        self.connections.set(ci, (c.clone(), Some(s.clone())));
        proof {
            lemma_update_at(h0.connections, c@, Some(s@), ci as int);
            assert(self.connections.deep_view() =~= h0.connections.update(
                ci as int,
                (c@, Some(s@)),
            ));
        }
        // Enter the session's member list.
        let out: Vec<String>;
        match find_key(&self.sessions, &s) {
            Some(si) => {
                proof {
                    lemma_lookup_at(sess0, s@, si as int);
                }
                let ghost m = sess0[si as int].1;
                if contains_string(&self.sessions[si].1, &c) {
                    proof {
                        lemma_update_at(sess0, s@, m, si as int);
                        assert(assoc_update(sess0, s@, m) =~= sess0);
                    }
                    out = self.sessions[si].1.clone();
                } else {
                    let key = self.sessions[si].0.clone();
                    let mut grown = self.sessions[si].1.clone();
                    grown.push(c.clone());
                    proof {
                        assert(grown.deep_view() =~= m.push(c@));
                    }
                    self.sessions.set(si, (key, grown));
                    proof {
                        lemma_update_at(sess0, s@, m.push(c@), si as int);
                        assert(self.sessions.deep_view() =~= sess0.update(
                            si as int,
                            (s@, m.push(c@)),
                        ));
                    }
                    out = self.sessions[si].1.clone();
                }
            },
            None => {
                proof {
                    lemma_lookup_absent(sess0, s@);
                    lemma_update_absent(sess0, s@, seq![c@]);
                }
                let mut first: Vec<String> = Vec::new();
                first.push(c.clone());
                out = first.clone();
                self.sessions.push((s.clone(), first));
                proof {
                    assert(out.deep_view() =~= seq![c@]);
                    assert(self.sessions.deep_view() =~= sess0.push((s@, seq![c@])));
                }
            },
        }
        proof {
            lemma_join_preserves_wf(h0, c@, s@);
            lemma_lookup_update(sess0, s@, members_view(h0, c@, s@), s@);
        }
        out
    }

    /// The connection leaves its current session, if any; returns the id of
    /// the session it left.
    pub fn leave_session(&mut self, connection_id: &str) -> (r: Option<String>)
        requires
            hub_wf(old(self)@),
        ensures
            final(self)@ == hub_leave(old(self)@, connection_id@),
            hub_wf(final(self)@),
            match r {
                Some(x) => session_of(old(self)@.connections, connection_id@) == Some(x@),
                None => session_of(old(self)@.connections, connection_id@) is None,
            },
    {
        let c = connection_id.to_owned();
        let ghost h0 = self@;
        let r: Option<String>;
        match find_key(&self.connections, &c) {
            Some(ci) => {
                proof {
                    lemma_lookup_at(h0.connections, c@, ci as int);
                }
                let claim: Option<String> = match &self.connections[ci].1 {
                    Some(x) => Some(x.clone()),
                    None => None,
                };
                match claim {
                    Some(s_old) => {
                        self.connections.set(ci, (c.clone(), None));
                        proof {
                            lemma_update_at(h0.connections, c@, None::<Seq<char>>, ci as int);
                            assert(self.connections.deep_view() =~= h0.connections.update(
                                ci as int,
                                (c@, None),
                            ));
                        }
                        detach_member(&mut self.sessions, &s_old, &c);
                        r = Some(s_old);
                    },
                    None => {
                        r = None;
                    },
                }
            },
            None => {
                proof {
                    lemma_lookup_absent(h0.connections, c@);
                }
                r = None;
            },
        }
        proof {
            lemma_leave_preserves_wf(h0, c@);
        }
        r
    }

    /// Drops a closed connection: its entry goes away together with its
    /// session membership.
    pub fn remove_connection(&mut self, id: &str)
        requires
            hub_wf(old(self)@),
        ensures
            final(self)@ == hub_remove(old(self)@, id@),
            hub_wf(final(self)@),
    {
        let c = id.to_owned();
        let ghost h0 = self@;
        match find_key(&self.connections, &c) {
            Some(ci) => {
                proof {
                    lemma_lookup_at(h0.connections, c@, ci as int);
                }
                let claim: Option<String> = match &self.connections[ci].1 {
                    Some(x) => Some(x.clone()),
                    None => None,
                };
                match claim {
                    Some(s_old) => {
                        detach_member(&mut self.sessions, &s_old, &c);
                    },
                    None => {},
                }
                self.connections.remove(ci);
                proof {
                    lemma_remove_at(h0.connections, c@, ci as int);
                    assert(self.connections.deep_view() =~= h0.connections.remove(ci as int));
                }
            },
            None => {
                proof {
                    lemma_lookup_absent(h0.connections, c@);
                    lemma_remove_absent(h0.connections, c@);
                }
            },
        }
        proof {
            lemma_remove_preserves_wf(h0, c@);
        }
    }

    /// The member list of a session, empty if the session does not exist.
    pub fn get_session_members(&self, session_id: &str) -> (r: Vec<String>)
        ensures
            r.deep_view() == members_of(self@.sessions, session_id@),
    {
        let s = session_id.to_owned();
        match find_key(&self.sessions, &s) {
            Some(si) => {
                proof {
                    lemma_lookup_at(self@.sessions, session_id@, si as int);
                }
                self.sessions[si].1.clone()
            },
            None => {
                proof {
                    lemma_lookup_absent(self@.sessions, session_id@);
                }
                let r = Vec::new();
                proof {
                    assert(r.deep_view() =~= Seq::<Seq<char>>::empty());
                }
                r
            },
        }
    }

    /// Whether the connection currently sits in this very session.
    pub fn is_in_session(&self, connection_id: &str, session_id: &str) -> (r: bool)
        ensures
            r == (session_of(self@.connections, connection_id@) == Some(session_id@)),
    {
        let c = connection_id.to_owned();
        let s = session_id.to_owned();
        match find_key(&self.connections, &c) {
            Some(ci) => {
                proof {
                    lemma_lookup_at(self@.connections, connection_id@, ci as int);
                }
                match &self.connections[ci].1 {
                    Some(x) => String::eq(x, &s),
                    None => false,
                }
            },
            None => {
                proof {
                    lemma_lookup_absent(self@.connections, connection_id@);
                }
                false
            },
        }
    }

    /// The fan-out targets of a relayed frame: every member of the sender's
    /// current session, the sender included; empty when the sender is in no
    /// session.
    pub fn relay_targets(&self, connection_id: &str) -> (r: Vec<String>)
        ensures
            r.deep_view() == match session_of(self@.connections, connection_id@) {
                Some(s) => members_of(self@.sessions, s),
                None => Seq::<Seq<char>>::empty(),
            },
    {
        let c = connection_id.to_owned();
        match find_key(&self.connections, &c) {
            Some(ci) => {
                proof {
                    lemma_lookup_at(self@.connections, connection_id@, ci as int);
                }
                let claim: Option<String> = match &self.connections[ci].1 {
                    Some(x) => Some(x.clone()),
                    None => None,
                };
                match claim {
                    Some(s_cur) => self.get_session_members(s_cur.as_str()),
                    None => {
                        let r = Vec::new();
                        proof {
                            assert(r.deep_view() =~= Seq::<Seq<char>>::empty());
                        }
                        r
                    },
                }
            },
            None => {
                proof {
                    lemma_lookup_absent(self@.connections, connection_id@);
                }
                let r = Vec::new();
                proof {
                    assert(r.deep_view() =~= Seq::<Seq<char>>::empty());
                }
                r
            },
        }
    }
}

/// The member list that `hub_join` binds to `s`.
spec fn members_view(h: HubView, c: Seq<char>, s: Seq<char>) -> Seq<Seq<char>> {
    let sess0 = match session_of(h.connections, c) {
        Some(s_old) => if s_old != s {
            detach(h.sessions, s_old, c)
        } else {
            h.sessions
        },
        None => h.sessions,
    };
    let members = members_of(sess0, s);
    if members.contains(c) {
        members
    } else {
        members.push(c)
    }
}

} // verus!
