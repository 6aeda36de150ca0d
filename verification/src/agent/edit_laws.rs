//! What installing and removing our hook entries guarantee about a document.
use vstd::prelude::*;
use crate::json::{JsonView, vpos, lemma_vpos_first, lemma_vpos_at, lemma_vpos_none};
use super::edit::{filter_ours, clean_group, clean_groups, v_remove_ours, vhook_port, v_ensure, EnsureOutcome, our_group};

verus! {

/// No key appears twice (true of every document `serde_json` parses).
pub open spec fn unique_keys(ms: Seq<(Seq<char>, JsonView)>) -> bool {
    forall|i: int, j: int| 0 <= i < j < ms.len() ==> ms[i].0 != ms[j].0
}

/// The root's keys are unique, and so are those of its `hooks` object.
pub open spec fn edit_wf(doc: JsonView) -> bool {
    match doc {
        JsonView::Object(root) => unique_keys(root) && {
            let hp = vpos(root, "hooks"@);
            hp >= 0 ==> match root[hp].1 {
                JsonView::Object(hooks) => unique_keys(hooks),
                _ => true,
            }
        },
        _ => true,
    }
}

/// The hook entries of one group.
pub open spec fn group_hooks_v(g: JsonView) -> Seq<JsonView> {
    match g {
        JsonView::Object(ms) => {
            let p = vpos(ms, "hooks"@);
            if p >= 0 {
                match ms[p].1 {
                    JsonView::Array(l) => l,
                    _ => Seq::empty(),
                }
            } else {
                Seq::empty()
            }
        },
        _ => Seq::empty(),
    }
}

/// The groups registered under `event`.
pub open spec fn event_groups_v(doc: JsonView, event: Seq<char>) -> Seq<JsonView> {
    match doc {
        JsonView::Object(root) => {
            let hp = vpos(root, "hooks"@);
            if hp >= 0 {
                match root[hp].1 {
                    JsonView::Object(hooks) => {
                        let ep = vpos(hooks, event);
                        if ep >= 0 {
                            match hooks[ep].1 {
                                JsonView::Array(gs) => gs,
                                _ => Seq::empty(),
                            }
                        } else {
                            Seq::empty()
                        }
                    },
                    _ => Seq::empty(),
                }
            } else {
                Seq::empty()
            }
        },
        _ => Seq::empty(),
    }
}

/// How many entries of a list are ours.
pub open spec fn ours_in_list(l: Seq<JsonView>) -> nat
    decreases l.len(),
{
    if l.len() == 0 {
        0
    } else {
        ours_in_list(l.drop_last()) + if vhook_port(l.last()) is Some {
            1nat
        } else {
            0nat
        }
    }
}

/// How many entries of ours the groups hold.
pub open spec fn ours_in_groups(gs: Seq<JsonView>) -> nat
    decreases gs.len(),
{
    if gs.len() == 0 {
        0
    } else {
        ours_in_groups(gs.drop_last()) + ours_in_list(group_hooks_v(gs.last()))
    }
}

proof fn lemma_filter_clean(l: Seq<JsonView>)
    ensures
        ours_in_list(filter_ours(l)) == 0,
        filter_ours(filter_ours(l)) == filter_ours(l),
        filter_ours(l).len() <= l.len(),
        filter_ours(l).len() == l.len() ==> filter_ours(l) == l,
    decreases l.len(),
{
    if l.len() > 0 {
        lemma_filter_clean(l.drop_last());
        let f = filter_ours(l.drop_last());
        if vhook_port(l.last()) is None {
            let g = f + seq![l.last()];
            assert(g.drop_last() =~= f);
            assert(filter_ours(l) == g);
            assert(ours_in_list(g) == ours_in_list(f));
            assert(filter_ours(g) == filter_ours(f) + seq![l.last()]);
            if g.len() == l.len() {
                assert(l =~= l.drop_last() + seq![l.last()]);
            }
        } else {
            assert(filter_ours(l) =~= f);
        }
    } else {
        assert(filter_ours(l) =~= l);
    }
}

proof fn lemma_update_same<A>(s: Seq<A>, i: int)
    requires
        0 <= i < s.len(),
    ensures
        s.update(i, s[i]) == s,
{
    assert(s.update(i, s[i]) =~= s);
}

proof fn lemma_vpos_update(ms: Seq<(Seq<char>, JsonView)>, key: Seq<char>, v: JsonView)
    requires
        vpos(ms, key) >= 0,
    ensures
        vpos(ms.update(vpos(ms, key), (key, v)), key) == vpos(ms, key),
{
    let p = vpos(ms, key);
    lemma_vpos_first(ms, key);
    let m2 = ms.update(p, (key, v));
    assert forall|j: int| 0 <= j < p implies m2[j].0 != key by {
        assert(m2[j] == ms[j]);
    }
    lemma_vpos_at(m2, key, p);
}

/// A cleaned group is left as it is by a second cleaning, and holds none of ours.
proof fn lemma_clean_group_fixed(g: JsonView)
    ensures
        clean_group(g) matches Some(g2) ==> clean_group(g2) == Some(g2) && ours_in_list(group_hooks_v(g2)) == 0,
{
    match g {
        JsonView::Object(ms) => {
            let p = vpos(ms, "hooks"@);
            lemma_vpos_first(ms, "hooks"@);
            if p >= 0 {
                match ms[p].1 {
                    JsonView::Array(list) => {
                        let nl = filter_ours(list);
                        lemma_filter_clean(list);
                        if !(nl.len() != list.len() && nl.len() == 0) {
                            let ms2 = ms.update(p, (ms[p].0, JsonView::Array(nl)));
                            lemma_vpos_update(ms, "hooks"@, JsonView::Array(nl));
                            assert(vpos(ms2, "hooks"@) == p);
                            lemma_update_same(ms2, p);
                            assert(ms2[p].1 == JsonView::Array(nl));
                            assert(group_hooks_v(JsonView::Object(ms2)) == nl);
                        }
                    },
                    _ => {
                        assert(group_hooks_v(g) =~= Seq::<JsonView>::empty());
                    },
                }
            } else {
                assert(group_hooks_v(g) =~= Seq::<JsonView>::empty());
            }
        },
        _ => {},
    }
}

proof fn lemma_clean_groups_fixed(gs: Seq<JsonView>)
    ensures
        clean_groups(clean_groups(gs)) == clean_groups(gs),
        ours_in_groups(clean_groups(gs)) == 0,
    decreases gs.len(),
{
    if gs.len() > 0 {
        lemma_clean_groups_fixed(gs.drop_last());
        let c = clean_groups(gs.drop_last());
        lemma_clean_group_fixed(gs.last());
        match clean_group(gs.last()) {
            Some(g2) => {
                let cg = c + seq![g2];
                assert(cg.drop_last() =~= c);
                assert(clean_groups(gs) == cg);
                assert(clean_groups(cg) == clean_groups(c) + seq![g2]);
                assert(ours_in_groups(cg) == ours_in_groups(c) + ours_in_list(group_hooks_v(g2)));
            },
            None => {
                assert(clean_groups(gs) =~= c);
            },
        }
    }
}

/// Removing our entries twice is removing them once.
pub proof fn removing_ours_is_idempotent(doc: JsonView, event: Seq<char>)
    requires
        edit_wf(doc),
    ensures
        v_remove_ours(v_remove_ours(doc, event), event) == v_remove_ours(doc, event),
{
    match doc {
        JsonView::Object(root) => {
            let hp = vpos(root, "hooks"@);
            lemma_vpos_first(root, "hooks"@);
            if hp >= 0 {
                match root[hp].1 {
                    JsonView::Object(hooks) => {
                        let ep = vpos(hooks, event);
                        lemma_vpos_first(hooks, event);
                        if ep >= 0 {
                            match hooks[ep].1 {
                                JsonView::Array(groups) => {
                                    let ng = clean_groups(groups);
                                    lemma_clean_groups_fixed(groups);
                                    let nh = if ng.len() == 0 {
                                        hooks.remove(ep)
                                    } else {
                                        hooks.update(ep, (hooks[ep].0, JsonView::Array(ng)))
                                    };
                                    if ng.len() == 0 {
                                        assert forall|j: int| 0 <= j < nh.len() implies nh[j].0 != event by {
                                            if j < ep {
                                                assert(nh[j] == hooks[j]);
                                            } else {
                                                assert(nh[j] == hooks[j + 1]);
                                            }
                                        }
                                        lemma_vpos_none(nh, event);
                                    } else {
                                        lemma_vpos_update(hooks, event, JsonView::Array(ng));
                                        lemma_update_same(nh, ep);
                                    }
                                    if nh.len() == 0 {
                                        let r2 = root.remove(hp);
                                        assert forall|j: int| 0 <= j < r2.len() implies r2[j].0 != "hooks"@ by {
                                            if j < hp {
                                                assert(r2[j] == root[j]);
                                            } else {
                                                assert(r2[j] == root[j + 1]);
                                            }
                                        }
                                        lemma_vpos_none(r2, "hooks"@);
                                    } else {
                                        lemma_vpos_update(root, "hooks"@, JsonView::Object(nh));
                                        let r2 = root.update(hp, (root[hp].0, JsonView::Object(nh)));
                                        if ng.len() != 0 {
                                            assert(nh[ep].1 == JsonView::Array(ng));
                                            lemma_update_same(r2, hp);
                                        }
                                    }
                                },
                                _ => {},
                            }
                        }
                    },
                    _ => {},
                }
            }
        },
        _ => {},
    }
}

/// After removing our entries from an event, none of ours is left under it: an
/// uninstalled file shows no trace of us.
pub proof fn removal_leaves_none_of_ours(doc: JsonView, event: Seq<char>)
    requires
        edit_wf(doc),
    ensures
        ours_in_groups(event_groups_v(v_remove_ours(doc, event), event)) == 0,
{
    match doc {
        JsonView::Object(root) => {
            let hp = vpos(root, "hooks"@);
            lemma_vpos_first(root, "hooks"@);
            if hp >= 0 {
                match root[hp].1 {
                    JsonView::Object(hooks) => {
                        let ep = vpos(hooks, event);
                        lemma_vpos_first(hooks, event);
                        if ep >= 0 {
                            match hooks[ep].1 {
                                JsonView::Array(groups) => {
                                    let ng = clean_groups(groups);
                                    lemma_clean_groups_fixed(groups);
                                    let nh = if ng.len() == 0 {
                                        hooks.remove(ep)
                                    } else {
                                        hooks.update(ep, (hooks[ep].0, JsonView::Array(ng)))
                                    };
                                    if ng.len() == 0 {
                                        assert forall|j: int| 0 <= j < nh.len() implies nh[j].0 != event by {
                                            if j < ep {
                                                assert(nh[j] == hooks[j]);
                                            } else {
                                                assert(nh[j] == hooks[j + 1]);
                                            }
                                        }
                                        lemma_vpos_none(nh, event);
                                    } else {
                                        lemma_vpos_update(hooks, event, JsonView::Array(ng));
                                    }
                                    if nh.len() == 0 {
                                        let r2 = root.remove(hp);
                                        assert forall|j: int| 0 <= j < r2.len() implies r2[j].0 != "hooks"@ by {
                                            if j < hp {
                                                assert(r2[j] == root[j]);
                                            } else {
                                                assert(r2[j] == root[j + 1]);
                                            }
                                        }
                                        lemma_vpos_none(r2, "hooks"@);
                                    } else {
                                        lemma_vpos_update(root, "hooks"@, JsonView::Object(nh));
                                    }
                                },
                                _ => {},
                            }
                        }
                    },
                    _ => {},
                }
            }
        },
        _ => {},
    }
}

proof fn lemma_ours_push(gs: Seq<JsonView>, g: JsonView)
    ensures
        ours_in_groups(gs.push(g)) == ours_in_groups(gs) + ours_in_list(group_hooks_v(g)),
{
    assert(gs.push(g).drop_last() =~= gs);
}

proof fn lemma_our_group_holds_one(spec: JsonView)
    requires
        vhook_port(spec) is Some,
    ensures
        ours_in_list(group_hooks_v(our_group(spec))) == 1,
{
    let ms = seq![("matcher"@, JsonView::Str(Seq::empty())), ("hooks"@, JsonView::Array(seq![spec]))];
    reveal_strlit("matcher");
    reveal_strlit("hooks");
    assert("matcher"@.len() == 7);
    assert("hooks"@.len() == 5);
    assert(ms[0].0 != "hooks"@);
    lemma_vpos_at(ms, "hooks"@, 1);
    assert(group_hooks_v(our_group(spec)) == seq![spec]);
    let one = seq![spec];
    assert(one.drop_last() =~= Seq::<JsonView>::empty());
    assert(one.last() == spec);
    assert(ours_in_list(one) == ours_in_list(one.drop_last()) + 1);
    assert(ours_in_list(Seq::<JsonView>::empty()) == 0);
}

/// Installing our entry for an event leaves exactly one entry of ours under it, the
/// one installed; whatever was there before is replaced, never duplicated.
pub proof fn ensuring_leaves_exactly_one_of_ours(doc: JsonView, event: Seq<char>, spec: JsonView)
    requires
        edit_wf(doc),
        vhook_port(spec) is Some,
    ensures
        v_ensure(doc, event, spec) matches EnsureOutcome::Done(v) ==> ours_in_groups(event_groups_v(v, event)) == 1,
{
    let d = v_remove_ours(doc, event);
    removal_leaves_none_of_ours(doc, event);
    lemma_our_group_holds_one(spec);
    match d {
        JsonView::Object(root) => {
            let hp = vpos(root, "hooks"@);
            lemma_vpos_first(root, "hooks"@);
            let root1 = if hp >= 0 {
                root
            } else {
                root.push(("hooks"@, JsonView::Object(Seq::empty())))
            };
            let hi = if hp >= 0 {
                hp
            } else {
                root.len() as int
            };
            if hp < 0 {
                assert forall|j: int| 0 <= j < hi implies root1[j].0 != "hooks"@ by {
                    assert(root1[j] == root[j]);
                }
                lemma_vpos_at(root1, "hooks"@, hi);
            }
            assert(vpos(root1, "hooks"@) == hi);
            match root1[hi].1 {
                JsonView::Object(hooks) => {
                    let ep = vpos(hooks, event);
                    lemma_vpos_first(hooks, event);
                    let hooks1 = if ep >= 0 {
                        hooks
                    } else {
                        hooks.push((event, JsonView::Array(Seq::empty())))
                    };
                    let ei = if ep >= 0 {
                        ep
                    } else {
                        hooks.len() as int
                    };
                    if ep < 0 {
                        assert forall|j: int| 0 <= j < ei implies hooks1[j].0 != event by {
                            assert(hooks1[j] == hooks[j]);
                        }
                        lemma_vpos_at(hooks1, event, ei);
                    }
                    assert(vpos(hooks1, event) == ei);
                    match hooks1[ei].1 {
                        JsonView::Array(groups) => {
                            let ng = groups.push(our_group(spec));
                            let nh = hooks1.update(ei, (hooks1[ei].0, JsonView::Array(ng)));
                            assert(hooks1[ei].0 == event);
                            lemma_vpos_update(hooks1, event, JsonView::Array(ng));
                            assert(root1[hi].0 == "hooks"@);
                            lemma_vpos_update(root1, "hooks"@, JsonView::Object(nh));
                            let v = JsonView::Object(root1.update(hi, (root1[hi].0, JsonView::Object(nh))));
                            assert(event_groups_v(v, event) == ng);
                            lemma_ours_push(groups, our_group(spec));
                            if ep >= 0 && hp >= 0 {
                                assert(event_groups_v(d, event) == groups);
                            } else {
                                assert(groups =~= Seq::<JsonView>::empty());
                            }
                        },
                        _ => {},
                    }
                },
                _ => {},
            }
        },
        _ => {},
    }
}

/// The value under `key`, when there is one.
pub open spec fn lookup(ms: Seq<(Seq<char>, JsonView)>, key: Seq<char>) -> Option<JsonView> {
    if vpos(ms, key) >= 0 {
        Some(ms[vpos(ms, key)].1)
    } else {
        None
    }
}

proof fn lemma_lookup_update_other(ms: Seq<(Seq<char>, JsonView)>, i: int, e: (Seq<char>, JsonView), key: Seq<char>)
    requires
        0 <= i < ms.len(),
        ms[i].0 != key,
        e.0 != key,
    ensures
        lookup(ms.update(i, e), key) == lookup(ms, key),
{
    let m2 = ms.update(i, e);
    lemma_vpos_first(ms, key);
    let p = vpos(ms, key);
    if p >= 0 {
        assert forall|j: int| 0 <= j < p implies m2[j].0 != key by {
            if j != i {
                assert(m2[j] == ms[j]);
            }
        }
        assert(m2[p] == ms[p]);
        lemma_vpos_at(m2, key, p);
    } else {
        assert forall|j: int| 0 <= j < m2.len() implies m2[j].0 != key by {
            if j != i {
                assert(m2[j] == ms[j]);
            }
        }
        lemma_vpos_none(m2, key);
    }
}

proof fn lemma_lookup_remove_other(ms: Seq<(Seq<char>, JsonView)>, i: int, key: Seq<char>)
    requires
        0 <= i < ms.len(),
        ms[i].0 != key,
    ensures
        lookup(ms.remove(i), key) == lookup(ms, key),
{
    let m2 = ms.remove(i);
    lemma_vpos_first(ms, key);
    let p = vpos(ms, key);
    if p >= 0 {
        let q = if p < i { p } else { p - 1 };
        assert forall|j: int| 0 <= j < q implies m2[j].0 != key by {
            if j < i {
                assert(m2[j] == ms[j]);
            } else {
                assert(m2[j] == ms[j + 1]);
            }
        }
        if p < i {
            assert(m2[q] == ms[p]);
        } else {
            assert(m2[q] == ms[p]);
        }
        lemma_vpos_at(m2, key, q);
    } else {
        assert forall|j: int| 0 <= j < m2.len() implies m2[j].0 != key by {
            if j < i {
                assert(m2[j] == ms[j]);
            } else {
                assert(m2[j] == ms[j + 1]);
            }
        }
        lemma_vpos_none(m2, key);
    }
}

proof fn lemma_lookup_push_other(ms: Seq<(Seq<char>, JsonView)>, e: (Seq<char>, JsonView), key: Seq<char>)
    requires
        e.0 != key,
    ensures
        lookup(ms.push(e), key) == lookup(ms, key),
{
    let m2 = ms.push(e);
    lemma_vpos_first(ms, key);
    let p = vpos(ms, key);
    if p >= 0 {
        assert forall|j: int| 0 <= j < p implies m2[j].0 != key by {
            assert(m2[j] == ms[j]);
        }
        assert(m2[p] == ms[p]);
        lemma_vpos_at(m2, key, p);
    } else {
        assert forall|j: int| 0 <= j < m2.len() implies m2[j].0 != key by {
            if j < ms.len() {
                assert(m2[j] == ms[j]);
            }
        }
        lemma_vpos_none(m2, key);
    }
}

/// The groups under `event` read through [`lookup`].
proof fn lemma_event_groups_lookup(doc: JsonView, event: Seq<char>)
    ensures
        event_groups_v(doc, event) == match doc {
            JsonView::Object(root) => match lookup(root, "hooks"@) {
                Some(JsonView::Object(hooks)) => match lookup(hooks, event) {
                    Some(JsonView::Array(gs)) => gs,
                    _ => Seq::empty(),
                },
                _ => Seq::empty(),
            },
            _ => Seq::empty(),
        },
{
}

/// Removing our entries from one event leaves every other event's groups as they
/// were.
pub proof fn removal_leaves_other_events_alone(doc: JsonView, event: Seq<char>, other: Seq<char>)
    requires
        edit_wf(doc),
        other != event,
    ensures
        event_groups_v(v_remove_ours(doc, event), other) == event_groups_v(doc, other),
{
    lemma_event_groups_lookup(doc, other);
    lemma_event_groups_lookup(v_remove_ours(doc, event), other);
    match doc {
        JsonView::Object(root) => {
            let hp = vpos(root, "hooks"@);
            lemma_vpos_first(root, "hooks"@);
            if hp >= 0 {
                match root[hp].1 {
                    JsonView::Object(hooks) => {
                        let ep = vpos(hooks, event);
                        lemma_vpos_first(hooks, event);
                        if ep >= 0 {
                            match hooks[ep].1 {
                                JsonView::Array(groups) => {
                                    let ng = clean_groups(groups);
                                    let nh = if ng.len() == 0 {
                                        hooks.remove(ep)
                                    } else {
                                        hooks.update(ep, (hooks[ep].0, JsonView::Array(ng)))
                                    };
                                    if ng.len() == 0 {
                                        lemma_lookup_remove_other(hooks, ep, other);
                                    } else {
                                        lemma_lookup_update_other(hooks, ep, (hooks[ep].0, JsonView::Array(ng)), other);
                                    }
                                    if nh.len() == 0 {
                                        let r2 = root.remove(hp);
                                        assert forall|j: int| 0 <= j < r2.len() implies r2[j].0 != "hooks"@ by {
                                            if j < hp {
                                                assert(r2[j] == root[j]);
                                            } else {
                                                assert(r2[j] == root[j + 1]);
                                            }
                                        }
                                        lemma_vpos_none(r2, "hooks"@);
                                        lemma_vpos_none(nh, other);
                                    } else {
                                        lemma_vpos_update(root, "hooks"@, JsonView::Object(nh));
                                    }
                                },
                                _ => {},
                            }
                        }
                    },
                    _ => {},
                }
            }
        },
        _ => {},
    }
}

/// Installing our entry under one event leaves every other event's groups as they
/// were.
pub proof fn ensuring_leaves_other_events_alone(doc: JsonView, event: Seq<char>, other: Seq<char>, spec: JsonView)
    requires
        edit_wf(doc),
        other != event,
    ensures
        v_ensure(doc, event, spec) matches EnsureOutcome::Done(v) ==> event_groups_v(v, other) == event_groups_v(doc, other),
{
    let d = v_remove_ours(doc, event);
    removal_leaves_other_events_alone(doc, event, other);
    lemma_event_groups_lookup(d, other);
    match d {
        JsonView::Object(root) => {
            let hp = vpos(root, "hooks"@);
            lemma_vpos_first(root, "hooks"@);
            let root1 = if hp >= 0 {
                root
            } else {
                root.push(("hooks"@, JsonView::Object(Seq::empty())))
            };
            let hi = if hp >= 0 {
                hp
            } else {
                root.len() as int
            };
            if hp < 0 {
                assert forall|j: int| 0 <= j < hi implies root1[j].0 != "hooks"@ by {
                    assert(root1[j] == root[j]);
                }
                lemma_vpos_at(root1, "hooks"@, hi);
            }
            match root1[hi].1 {
                JsonView::Object(hooks) => {
                    let ep = vpos(hooks, event);
                    lemma_vpos_first(hooks, event);
                    let hooks1 = if ep >= 0 {
                        hooks
                    } else {
                        hooks.push((event, JsonView::Array(Seq::empty())))
                    };
                    let ei = if ep >= 0 {
                        ep
                    } else {
                        hooks.len() as int
                    };
                    if ep < 0 {
                        lemma_lookup_push_other(hooks, (event, JsonView::Array(Seq::empty())), other);
                        assert(hooks1[ei].0 == event);
                    }
                    match hooks1[ei].1 {
                        JsonView::Array(groups) => {
                            let ng = groups.push(our_group(spec));
                            let nh = hooks1.update(ei, (hooks1[ei].0, JsonView::Array(ng)));
                            lemma_lookup_update_other(hooks1, ei, (hooks1[ei].0, JsonView::Array(ng)), other);
                            assert(root1[hi].0 == "hooks"@);
                            lemma_vpos_update(root1, "hooks"@, JsonView::Object(nh));
                            let v = JsonView::Object(root1.update(hi, (root1[hi].0, JsonView::Object(nh))));
                            lemma_event_groups_lookup(v, other);
                            if hp < 0 {
                                lemma_vpos_none(Seq::<(Seq<char>, JsonView)>::empty(), other);
                            }
                        },
                        _ => {},
                    }
                },
                _ => {},
            }
        },
        _ => {},
    }
}

/// Whether the document has a `hooks` object with nothing in it.
pub open spec fn has_empty_hooks(doc: JsonView) -> bool {
    match doc {
        JsonView::Object(root) => {
            let hp = vpos(root, "hooks"@);
            hp >= 0 && root[hp].1 == JsonView::Object(Seq::empty())
        },
        _ => false,
    }
}

/// The event's slot holds no empty array.
pub open spec fn no_empty_event_array(doc: JsonView, event: Seq<char>) -> bool {
    match doc {
        JsonView::Object(root) => {
            let hp = vpos(root, "hooks"@);
            hp >= 0 ==> match root[hp].1 {
                JsonView::Object(hooks) => {
                    let ep = vpos(hooks, event);
                    ep >= 0 ==> match hooks[ep].1 {
                        JsonView::Array(gs) => gs.len() > 0,
                        _ => true,
                    }
                },
                _ => true,
            }
        },
        _ => true,
    }
}

proof fn lemma_removed_groups_fixed(doc: JsonView, event: Seq<char>)
    requires
        edit_wf(doc),
    ensures
        clean_groups(event_groups_v(v_remove_ours(doc, event), event)) == event_groups_v(v_remove_ours(doc, event), event),
        no_empty_event_array(v_remove_ours(doc, event), event),
{
    match doc {
        JsonView::Object(root) => {
            let hp = vpos(root, "hooks"@);
            lemma_vpos_first(root, "hooks"@);
            if hp >= 0 {
                match root[hp].1 {
                    JsonView::Object(hooks) => {
                        let ep = vpos(hooks, event);
                        lemma_vpos_first(hooks, event);
                        if ep >= 0 {
                            match hooks[ep].1 {
                                JsonView::Array(groups) => {
                                    let ng = clean_groups(groups);
                                    lemma_clean_groups_fixed(groups);
                                    let nh = if ng.len() == 0 {
                                        hooks.remove(ep)
                                    } else {
                                        hooks.update(ep, (hooks[ep].0, JsonView::Array(ng)))
                                    };
                                    if ng.len() == 0 {
                                        assert forall|j: int| 0 <= j < nh.len() implies nh[j].0 != event by {
                                            if j < ep {
                                                assert(nh[j] == hooks[j]);
                                            } else {
                                                assert(nh[j] == hooks[j + 1]);
                                            }
                                        }
                                        lemma_vpos_none(nh, event);
                                    } else {
                                        lemma_vpos_update(hooks, event, JsonView::Array(ng));
                                    }
                                    if nh.len() == 0 {
                                        let r2 = root.remove(hp);
                                        assert forall|j: int| 0 <= j < r2.len() implies r2[j].0 != "hooks"@ by {
                                            if j < hp {
                                                assert(r2[j] == root[j]);
                                            } else {
                                                assert(r2[j] == root[j + 1]);
                                            }
                                        }
                                        lemma_vpos_none(r2, "hooks"@);
                                    } else {
                                        lemma_vpos_update(root, "hooks"@, JsonView::Object(nh));
                                    }
                                },
                                _ => {},
                            }
                        }
                    },
                    _ => {},
                }
            }
        },
        _ => {},
    }
}

proof fn lemma_our_group_is_dropped(spec: JsonView)
    requires
        vhook_port(spec) is Some,
    ensures
        clean_group(our_group(spec)) is None,
{
    let ms = seq![("matcher"@, JsonView::Str(Seq::empty())), ("hooks"@, JsonView::Array(seq![spec]))];
    reveal_strlit("matcher");
    reveal_strlit("hooks");
    assert("matcher"@.len() == 7);
    assert("hooks"@.len() == 5);
    assert(ms[0].0 != "hooks"@);
    lemma_vpos_at(ms, "hooks"@, 1);
    let one = seq![spec];
    assert(one.drop_last() =~= Seq::<JsonView>::empty());
    assert(one.last() == spec);
    assert(filter_ours(one) == filter_ours(one.drop_last()) + Seq::<JsonView>::empty());
    assert(filter_ours(one) =~= Seq::<JsonView>::empty());
}

/// Uninstalling after installing gives the document that uninstalling alone gives:
/// the install leaves nothing behind. Excluded: a document whose `hooks` object is
/// empty once ours are removed (say `{"hooks": {}, "x": 1}`); the install fills it
/// and the uninstall then removes it, along with the user's empty object.
pub proof fn uninstall_undoes_install(doc: JsonView, event: Seq<char>, spec: JsonView)
    requires
        edit_wf(doc),
        vhook_port(spec) is Some,
        !has_empty_hooks(v_remove_ours(doc, event)),
    ensures
        v_ensure(doc, event, spec) matches EnsureOutcome::Done(v) ==> v_remove_ours(v, event) == v_remove_ours(doc, event),
{
    let d = v_remove_ours(doc, event);
    lemma_removed_groups_fixed(doc, event);
    lemma_our_group_is_dropped(spec);
    match d {
        JsonView::Object(root) => {
            let hp = vpos(root, "hooks"@);
            lemma_vpos_first(root, "hooks"@);
            let root1 = if hp >= 0 {
                root
            } else {
                root.push(("hooks"@, JsonView::Object(Seq::empty())))
            };
            let hi = if hp >= 0 {
                hp
            } else {
                root.len() as int
            };
            if hp < 0 {
                assert forall|j: int| 0 <= j < hi implies root1[j].0 != "hooks"@ by {
                    assert(root1[j] == root[j]);
                }
                lemma_vpos_at(root1, "hooks"@, hi);
            }
            match root1[hi].1 {
                JsonView::Object(hooks) => {
                    let ep = vpos(hooks, event);
                    lemma_vpos_first(hooks, event);
                    let hooks1 = if ep >= 0 {
                        hooks
                    } else {
                        hooks.push((event, JsonView::Array(Seq::empty())))
                    };
                    let ei = if ep >= 0 {
                        ep
                    } else {
                        hooks.len() as int
                    };
                    if ep < 0 {
                        assert forall|j: int| 0 <= j < ei implies hooks1[j].0 != event by {
                            assert(hooks1[j] == hooks[j]);
                        }
                        lemma_vpos_at(hooks1, event, ei);
                    }
                    match hooks1[ei].1 {
                        JsonView::Array(groups) => {
                            let ng = groups.push(our_group(spec));
                            let nh = hooks1.update(ei, (hooks1[ei].0, JsonView::Array(ng)));
                            assert(hooks1[ei].0 == event);
                            lemma_vpos_update(hooks1, event, JsonView::Array(ng));
                            assert(root1[hi].0 == "hooks"@);
                            lemma_vpos_update(root1, "hooks"@, JsonView::Object(nh));
                            let rv = root1.update(hi, (root1[hi].0, JsonView::Object(nh)));
                            assert(ng.drop_last() =~= groups);
                            assert(clean_groups(ng) == clean_groups(groups));
                            if ep >= 0 && hp >= 0 {
                                assert(event_groups_v(d, event) == groups);
                            } else {
                                assert(groups =~= Seq::<JsonView>::empty());
                            }
                            assert(clean_groups(groups) == groups);
                            if groups.len() == 0 {
                                // the event is ours alone: it goes again, and with it
                                // what the install added
                                assert(ep < 0) by {
                                    if ep >= 0 {
                                        assert(hp >= 0);
                                        assert(root[hp].1 == JsonView::Object(hooks));
                                    }
                                }
                                assert(nh.remove(ei) =~= hooks);
                                if hooks.len() == 0 {
                                    assert(hp < 0) by {
                                        if hp >= 0 {
                                            assert(root[hp].1 == JsonView::Object(hooks));
                                            assert(hooks =~= Seq::<(Seq<char>, JsonView)>::empty());
                                        }
                                    }
                                    assert(rv.remove(hi) =~= root);
                                } else {
                                    assert(rv.update(hi, (rv[hi].0, JsonView::Object(hooks))) =~= root1.update(hi, (root1[hi].0, JsonView::Object(hooks))));
                                    if hp >= 0 {
                                        lemma_update_same(root, hp);
                                    }
                                }
                            } else {
                                assert(ep >= 0);
                                lemma_update_same(hooks, ep);
                                assert(nh.update(ei, (nh[ei].0, JsonView::Array(groups))) =~= hooks);
                                assert(hp >= 0);
                                lemma_update_same(root, hp);
                                assert(rv.update(hi, (rv[hi].0, JsonView::Object(hooks))) =~= root);
                            }
                        },
                        _ => {},
                    }
                },
                _ => {},
            }
        },
        _ => {},
    }
}

/// Installing twice is installing once: the second install finds exactly what the
/// first left after its removal step, so it rebuilds the same document. Excluded, as
/// above, a `hooks` object that is empty once ours are removed, where the second
/// install recreates `hooks` at the end of the root.
pub proof fn installing_twice_is_installing_once(doc: JsonView, event: Seq<char>, spec: JsonView)
    requires
        edit_wf(doc),
        vhook_port(spec) is Some,
        !has_empty_hooks(v_remove_ours(doc, event)),
    ensures
        v_ensure(doc, event, spec) matches EnsureOutcome::Done(v) ==> v_ensure(v, event, spec) == EnsureOutcome::Done(v),
{
    uninstall_undoes_install(doc, event, spec);
}

proof fn lemma_unique_update(ms: Seq<(Seq<char>, JsonView)>, i: int, v: JsonView)
    requires
        unique_keys(ms),
        0 <= i < ms.len(),
    ensures
        unique_keys(ms.update(i, (ms[i].0, v))),
{
    let m2 = ms.update(i, (ms[i].0, v));
    assert forall|a: int, b: int| 0 <= a < b < m2.len() implies m2[a].0 != m2[b].0 by {
        assert(m2[a].0 == ms[a].0);
        assert(m2[b].0 == ms[b].0);
    }
}

proof fn lemma_unique_remove(ms: Seq<(Seq<char>, JsonView)>, i: int)
    requires
        unique_keys(ms),
        0 <= i < ms.len(),
    ensures
        unique_keys(ms.remove(i)),
        vpos(ms.remove(i), ms[i].0) == -1,
{
    let m2 = ms.remove(i);
    assert forall|a: int, b: int| 0 <= a < b < m2.len() implies m2[a].0 != m2[b].0 by {
        let a0 = if a < i { a } else { a + 1 };
        let b0 = if b < i { b } else { b + 1 };
        assert(m2[a] == ms[a0]);
        assert(m2[b] == ms[b0]);
    }
    assert forall|j: int| 0 <= j < m2.len() implies m2[j].0 != ms[i].0 by {
        if j < i {
            assert(m2[j] == ms[j]);
        } else {
            assert(m2[j] == ms[j + 1]);
        }
    }
    lemma_vpos_none(m2, ms[i].0);
}

proof fn lemma_unique_push(ms: Seq<(Seq<char>, JsonView)>, k: Seq<char>, v: JsonView)
    requires
        unique_keys(ms),
        vpos(ms, k) < 0,
    ensures
        unique_keys(ms.push((k, v))),
        vpos(ms.push((k, v)), k) == ms.len(),
{
    lemma_vpos_first(ms, k);
    let m2 = ms.push((k, v));
    assert forall|a: int, b: int| 0 <= a < b < m2.len() implies m2[a].0 != m2[b].0 by {
        assert(m2[a] == ms[a]);
        if b < ms.len() {
            assert(m2[b] == ms[b]);
        }
    }
    assert forall|j: int| 0 <= j < ms.len() implies m2[j].0 != k by {
        assert(m2[j] == ms[j]);
    }
    lemma_vpos_at(m2, k, ms.len() as int);
}

/// Removing ours keeps keys unique.
proof fn lemma_remove_keeps_wf(doc: JsonView, event: Seq<char>)
    requires
        edit_wf(doc),
    ensures
        edit_wf(v_remove_ours(doc, event)),
{
    match doc {
        JsonView::Object(root) => {
            let hp = vpos(root, "hooks"@);
            lemma_vpos_first(root, "hooks"@);
            if hp >= 0 {
                match root[hp].1 {
                    JsonView::Object(hooks) => {
                        let ep = vpos(hooks, event);
                        lemma_vpos_first(hooks, event);
                        if ep >= 0 {
                            match hooks[ep].1 {
                                JsonView::Array(groups) => {
                                    let ng = clean_groups(groups);
                                    let nh = if ng.len() == 0 {
                                        hooks.remove(ep)
                                    } else {
                                        hooks.update(ep, (hooks[ep].0, JsonView::Array(ng)))
                                    };
                                    if ng.len() == 0 {
                                        lemma_unique_remove(hooks, ep);
                                    } else {
                                        lemma_unique_update(hooks, ep, JsonView::Array(ng));
                                    }
                                    if nh.len() == 0 {
                                        lemma_unique_remove(root, hp);
                                    } else {
                                        lemma_unique_update(root, hp, JsonView::Object(nh));
                                        lemma_vpos_update(root, "hooks"@, JsonView::Object(nh));
                                    }
                                },
                                _ => {},
                            }
                        }
                    },
                    _ => {},
                }
            }
        },
        _ => {},
    }
}

/// What a successful install leaves: keys still unique, a document from which
/// removing ours leaves no empty `hooks` object, and one a next install succeeds on.
proof fn lemma_after_install(doc: JsonView, event: Seq<char>, spec: JsonView)
    requires
        edit_wf(doc),
        vhook_port(spec) is Some,
    ensures
        v_ensure(doc, event, spec) matches EnsureOutcome::Done(v1) ==> {
            &&& edit_wf(v1)
            &&& !has_empty_hooks(v_remove_ours(v1, event))
            &&& v_ensure(v1, event, spec) is Done
        },
{
    let d = v_remove_ours(doc, event);
    lemma_remove_keeps_wf(doc, event);
    lemma_our_group_is_dropped(spec);
    match d {
        JsonView::Object(root) => {
            let hp = vpos(root, "hooks"@);
            lemma_vpos_first(root, "hooks"@);
            let root1 = if hp >= 0 {
                root
            } else {
                root.push(("hooks"@, JsonView::Object(Seq::empty())))
            };
            let hi = if hp >= 0 {
                hp
            } else {
                root.len() as int
            };
            if hp < 0 {
                lemma_unique_push(root, "hooks"@, JsonView::Object(Seq::empty()));
            }
            assert(unique_keys(root1));
            assert(vpos(root1, "hooks"@) == hi);
            match root1[hi].1 {
                JsonView::Object(hooks) => {
                    assert(unique_keys(hooks)) by {
                        if hp >= 0 {
                            assert(root[hp].1 == JsonView::Object(hooks));
                        } else {
                            assert(hooks =~= Seq::<(Seq<char>, JsonView)>::empty());
                        }
                    }
                    let ep = vpos(hooks, event);
                    lemma_vpos_first(hooks, event);
                    let hooks1 = if ep >= 0 {
                        hooks
                    } else {
                        hooks.push((event, JsonView::Array(Seq::empty())))
                    };
                    let ei = if ep >= 0 {
                        ep
                    } else {
                        hooks.len() as int
                    };
                    if ep < 0 {
                        lemma_unique_push(hooks, event, JsonView::Array(Seq::empty()));
                    }
                    assert(vpos(hooks1, event) == ei);
                    match hooks1[ei].1 {
                        JsonView::Array(groups) => {
                            let og = our_group(spec);
                            let ng = groups.push(og);
                            let nh = hooks1.update(ei, (hooks1[ei].0, JsonView::Array(ng)));
                            lemma_vpos_update(hooks1, event, JsonView::Array(ng));
                            lemma_unique_update(hooks1, ei, JsonView::Array(ng));
                            assert(root1[hi].0 == "hooks"@);
                            lemma_vpos_update(root1, "hooks"@, JsonView::Object(nh));
                            lemma_unique_update(root1, hi, JsonView::Object(nh));
                            let rv = root1.update(hi, (root1[hi].0, JsonView::Object(nh)));
                            let v1 = JsonView::Object(rv);
                            assert(v_ensure(doc, event, spec) == EnsureOutcome::Done(v1));
                            assert(edit_wf(v1)) by {
                                assert(rv[hi].1 == JsonView::Object(nh));
                            }
                            // removing ours from v1
                            assert(rv[hi].1 == JsonView::Object(nh));
                            assert(nh[ei].1 == JsonView::Array(ng));
                            assert(nh[ei].0 == event);
                            assert(ng.drop_last() =~= groups);
                            let cg = clean_groups(ng);
                            assert(cg == clean_groups(groups));
                            let nh2 = if cg.len() == 0 {
                                nh.remove(ei)
                            } else {
                                nh.update(ei, (nh[ei].0, JsonView::Array(cg)))
                            };
                            let r1 = v_remove_ours(v1, event);
                            if nh2.len() == 0 {
                                lemma_unique_remove(rv, hi);
                                assert(r1 == JsonView::Object(rv.remove(hi)));
                                let root2 = rv.remove(hi);
                                assert(vpos(root2, "hooks"@) == -1);
                                assert(!has_empty_hooks(r1));
                                let root3 = root2.push(("hooks"@, JsonView::Object(Seq::empty())));
                                lemma_unique_push(root2, "hooks"@, JsonView::Object(Seq::empty()));
                                let e0: Seq<(Seq<char>, JsonView)> = Seq::empty();
                                lemma_vpos_none(e0, event);
                                assert(v_ensure(v1, event, spec) is Done);
                            } else {
                                let root2 = rv.update(hi, (rv[hi].0, JsonView::Object(nh2)));
                                lemma_vpos_update(rv, "hooks"@, JsonView::Object(nh2));
                                assert(r1 == JsonView::Object(root2));
                                assert(vpos(root2, "hooks"@) == hi);
                                assert(root2[hi].1 == JsonView::Object(nh2));
                                assert(JsonView::Object(nh2) != JsonView::Object(Seq::<(Seq<char>, JsonView)>::empty())) by {
                                    assert(nh2.len() > 0);
                                }
                                assert(!has_empty_hooks(r1));
                                if cg.len() == 0 {
                                    lemma_unique_remove(nh, ei);
                                    assert(vpos(nh2, event) == -1);
                                } else {
                                    lemma_vpos_update(nh, event, JsonView::Array(cg));
                                    assert(vpos(nh2, event) == ei);
                                    assert(nh2[ei].1 == JsonView::Array(cg));
                                }
                                assert(v_ensure(v1, event, spec) is Done);
                            }
                        },
                        _ => {},
                    }
                },
                _ => {},
            }
        },
        _ => {},
    }
}

/// Installing converges: whatever the document, the second install reaches a
/// document that every further install leaves as it is. (A single install is not
/// always a fixed point: see [`installing_twice_is_installing_once`].)
pub proof fn installing_converges(doc: JsonView, event: Seq<char>, spec: JsonView)
    requires
        edit_wf(doc),
        vhook_port(spec) is Some,
    ensures
        v_ensure(doc, event, spec) matches EnsureOutcome::Done(v1) ==> (v_ensure(v1, event, spec) matches EnsureOutcome::Done(v2)
            && v_ensure(v2, event, spec) == EnsureOutcome::Done(v2)),
{
    lemma_after_install(doc, event, spec);
    if let EnsureOutcome::Done(v1) = v_ensure(doc, event, spec) {
        installing_twice_is_installing_once(v1, event, spec);
    }
}

} // verus!
