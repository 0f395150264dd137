//! The decisions of reading a repository, apart from the reading.
//!
//! The log's graph is drawn as the walk goes: each lane is a column that waits for one commit.
//! [`place_commit`] is the step the walk takes at each commit; the walk itself (which reads the
//! object store) belongs to the caller. So do the tree listing behind [`complete_paths`] and the
//! repository state behind [`repo_state`].
use vstd::prelude::*;
use crate::model::{
    encode_cursor, cursor_text, kept, last_waiting, lemma_last_waiting, opt_str, slot_views, DiffHunk, DiffLine, DiffLineKind, FileChange,
    FileChangeKind, FileDiff, LaneSlot, RefKind, RepoState,
};
use crate::text::{
    split,
    strs,
    append, chars_of, eq, lossy_chars, rindex_of, rindex_of_exec, lemma_rindex_of, slice_of,
    starts_with, string_of, strip_prefix, strip_prefix_exec, strip_suffix, strip_suffix_exec,
    trim_end_char, trim_end_char_exec, utf8_chars, utf8_lossy,
};
use vstd::utf8::{decode_utf8, valid_utf8};

verus! {

broadcast use vstd::seq_lib::group_seq_properties;

// ---------------------------------------------------------------------------------------------
// lanes
// ---------------------------------------------------------------------------------------------
pub open spec fn lane_views(lanes: Seq<Option<String>>) -> Seq<Option<Seq<char>>> {
    lanes.map_values(|l: Option<String>| match l {
        Some(s) => Some(s@),
        None => None,
    })
}

/// Whether a lane waits for this commit.
pub open spec fn waits_for(lanes: Seq<Option<Seq<char>>>, oid: Seq<char>) -> bool {
    exists|i: int| 0 <= i < lanes.len() && lanes[i] == Some(oid)
}

/// The leftmost lane that waits for `oid` (its length when none does).
pub open spec fn first_waiting(lanes: Seq<Option<Seq<char>>>, oid: Seq<char>) -> int
    decreases lanes.len(),
{
    if lanes.len() == 0 {
        0
    } else if lanes[0] == Some(oid) {
        0
    } else {
        first_waiting(lanes.drop_first(), oid) + 1
    }
}

/// The first free lane, or a new one past the end.
pub open spec fn free_slot(lanes: Seq<Option<Seq<char>>>) -> int
    decreases lanes.len(),
{
    if lanes.len() == 0 {
        0
    } else if lanes[0] is None {
        0
    } else {
        free_slot(lanes.drop_first()) + 1
    }
}

/// The other lanes that waited for the same commit converge into its lane and come free.
pub open spec fn converge(lanes: Seq<Option<Seq<char>>>, lane: int, oid: Seq<char>) -> Seq<
    Option<Seq<char>>,
> {
    Seq::new(
        lanes.len(),
        |i: int|
            if i != lane && lanes[i] == Some(oid) {
                None
            } else {
                lanes[i]
            },
    )
}

/// The parents, from the `k`-th on, each given a lane: the first parent continues the commit's
/// own lane, every other takes the first free one; a parent missing from a shallow clone gets
/// no lane. Returns the lanes, the edges, and whether the commit's lane continues.
pub open spec fn assign(
    lanes: Seq<Option<Seq<char>>>,
    lane: int,
    parents: Seq<(Seq<char>, bool)>,
    k: int,
    edges: Seq<Option<int>>,
    continues: bool,
) -> (Seq<Option<Seq<char>>>, Seq<Option<int>>, bool)
    decreases parents.len() - k,
{
    if k < 0 || k >= parents.len() {
        (lanes, edges, continues)
    } else if !parents[k].1 {
        assign(lanes, lane, parents, k + 1, edges.push(None), continues)
    } else {
        let target = if k == 0 {
            lane
        } else {
            free_slot(lanes)
        };
        let grown = if target == lanes.len() {
            lanes.push(None)
        } else {
            lanes
        };
        assign(
            grown.update(target, Some(parents[k].0)),
            lane,
            parents,
            k + 1,
            edges.push(Some(target)),
            continues || k == 0,
        )
    }
}

/// One step of the walk: the lanes after placing `oid` with these parents, its lane, and the
/// lane each edge goes down to.
pub open spec fn place(
    lanes: Seq<Option<Seq<char>>>,
    oid: Seq<char>,
    parents: Seq<(Seq<char>, bool)>,
) -> (Seq<Option<Seq<char>>>, int, Seq<Option<int>>) {
    let lane = first_waiting(lanes, oid);
    let (after, edges, continues) = assign(converge(lanes, lane, oid), lane, parents, 0, seq![], false);
    (if continues {
        after
    } else {
        after.update(lane, None)
    }, lane, edges)
}

proof fn lemma_first_waiting(lanes: Seq<Option<Seq<char>>>, oid: Seq<char>)
    requires
        waits_for(lanes, oid),
    ensures
        0 <= first_waiting(lanes, oid) < lanes.len(),
        lanes[first_waiting(lanes, oid)] == Some(oid),
        forall|k: int| 0 <= k < first_waiting(lanes, oid) ==> #[trigger] lanes[k] != Some(oid),
    decreases lanes.len(),
{
    if lanes[0] != Some(oid) {
        let i = choose|i: int| 0 <= i < lanes.len() && lanes[i] == Some(oid);
        assert(lanes.drop_first()[i - 1] == lanes[i]);
        lemma_first_waiting(lanes.drop_first(), oid);
        assert forall|k: int| 0 <= k < first_waiting(lanes, oid) implies #[trigger] lanes[k] != Some(oid) by {
            if k > 0 {
                assert(lanes[k] == lanes.drop_first()[k - 1]);
            }
        }
    }
}

proof fn lemma_free_slot(lanes: Seq<Option<Seq<char>>>)
    ensures
        0 <= free_slot(lanes) <= lanes.len(),
        free_slot(lanes) < lanes.len() ==> lanes[free_slot(lanes)] is None,
        forall|k: int| 0 <= k < free_slot(lanes) ==> #[trigger] lanes[k] is Some,
    decreases lanes.len(),
{
    if lanes.len() > 0 && lanes[0] is Some {
        lemma_free_slot(lanes.drop_first());
        assert forall|k: int| 0 <= k < free_slot(lanes) implies #[trigger] lanes[k] is Some by {
            if k > 0 {
                assert(lanes[k] == lanes.drop_first()[k - 1]);
            }
        }
    }
}

/// What [`assign`] keeps true as it goes: the edges so far name lanes that wait for their
/// parents, distinct from each other, and the commit's lane is taken by the first parent or
/// still holds the commit.
pub open spec fn edges_hold(
    lanes: Seq<Option<Seq<char>>>,
    lane: int,
    parents: Seq<(Seq<char>, bool)>,
    edges: Seq<Option<int>>,
) -> bool {
    &&& edges.len() <= parents.len()
    &&& forall|j: int|
        0 <= j < edges.len() ==> (#[trigger] edges[j] is Some <==> parents[j].1)
    &&& forall|j: int|
        0 <= j < edges.len() && edges[j] is Some ==> {
            let t = edges[j]->0;
            &&& 0 <= t < lanes.len()
            &&& lanes[t] == Some(parents[j].0)
            &&& (t == lane <==> j == 0)
        }
    &&& forall|i: int, j: int|
        0 <= i < j < edges.len() && edges[i] is Some && edges[j] is Some ==> #[trigger] edges[i]
            != #[trigger] edges[j]
}

proof fn lemma_assign(
    lanes: Seq<Option<Seq<char>>>,
    lane: int,
    parents: Seq<(Seq<char>, bool)>,
    k: int,
    edges: Seq<Option<int>>,
    continues: bool,
)
    requires
        0 <= k <= parents.len(),
        edges.len() == k,
        0 <= lane < lanes.len(),
        lanes[lane] is Some,
        edges_hold(lanes, lane, parents, edges),
        continues <==> (k > 0 && parents[0].1),
    ensures
        ({
            let (l2, e2, c2) = assign(lanes, lane, parents, k, edges, continues);
            &&& e2.len() == parents.len()
            &&& e2.take(k) == edges
            &&& lanes.len() <= l2.len()
            &&& l2[lane] is Some
            &&& edges_hold(l2, lane, parents, e2)
            &&& (c2 <==> (parents.len() > 0 && parents[0].1))
            &&& (!c2 ==> l2[lane] == lanes[lane])
        }),
    decreases parents.len() - k,
{
    if k < parents.len() {
        if !parents[k].1 {
            let e = edges.push(None);
            assert(e.take(k) =~= edges);
            assert forall|j: int| 0 <= j < e.len() implies (#[trigger] e[j] is Some <==> parents[j].1) by {
                if j < k {
                    assert(e[j] == edges[j]);
                }
            }
            assert forall|i: int, j: int|
                0 <= i < j < e.len() && e[i] is Some && e[j] is Some implies #[trigger] e[i] != #[trigger] e[j] by {
                assert(e[i] == edges[i]);
            }
            lemma_assign(lanes, lane, parents, k + 1, e, continues);
            let (l2, e2, c2) = assign(lanes, lane, parents, k + 1, e, continues);
            assert(e2.take(k) =~= e2.take(k + 1).take(k));
        } else {
            lemma_free_slot(lanes);
            let target = if k == 0 {
                lane
            } else {
                free_slot(lanes)
            };
            let grown = if target == lanes.len() {
                lanes.push(None)
            } else {
                lanes
            };
            let l = grown.update(target, Some(parents[k].0));
            let e = edges.push(Some(target));
            assert(e.take(k) =~= edges);
            // the earlier edges' lanes are untouched: `target` was free, or is the commit's own
            // lane and no earlier edge holds it
            assert forall|j: int| 0 <= j < e.len() && e[j] is Some implies {
                let t = e[j]->0;
                &&& 0 <= t < l.len()
                &&& l[t] == Some(parents[j].0)
                &&& (t == lane <==> j == 0)
            } by {
                if j < k {
                    assert(e[j] == edges[j]);
                    let t = edges[j]->0;
                    assert(t != target);
                }
            }
            assert forall|j: int| 0 <= j < e.len() implies (#[trigger] e[j] is Some <==> parents[j].1) by {
                if j < k {
                    assert(e[j] == edges[j]);
                }
            }
            assert forall|i: int, j: int|
                0 <= i < j < e.len() && e[i] is Some && e[j] is Some implies #[trigger] e[i] != #[trigger] e[j] by {
                assert(e[i] == edges[i]);
                if j == k {
                    let t = edges[i]->0;
                    assert(lanes[t] is Some);
                }
            }
            assert(l[lane] is Some);
            lemma_assign(l, lane, parents, k + 1, e, continues || k == 0);
            let (l2, e2, c2) = assign(l, lane, parents, k + 1, e, continues || k == 0);
            assert(e2.take(k) =~= e2.take(k + 1).take(k));
        }
    }
}

/// Where a new lane goes: the first free slot, or a new one at the end.
pub fn free_lane(lanes: &mut Vec<Option<String>>) -> (i: usize)
    ensures
        i == free_slot(lane_views(old(lanes)@)),
        lane_views(final(lanes)@) == if i == old(lanes)@.len() {
            lane_views(old(lanes)@).push(None)
        } else {
            lane_views(old(lanes)@)
        },
{
    let ghost ls = lane_views(lanes@);
    let mut i: usize = 0;
    while i < lanes.len()
        invariant
            i <= lanes.len(),
            ls == lane_views(lanes@),
            lanes@ == old(lanes)@,
            free_slot(ls) == free_slot(ls.skip(i as int)) + i,
        decreases lanes.len() - i,
    {
        assert(ls.skip(i as int)[0] == ls[i as int]);
        assert(ls.skip(i as int).drop_first() =~= ls.skip(i + 1));
        if lanes[i].is_none() {
            return i;
        }
        i += 1;
    }
    lanes.push(None);
    assert(lane_views(lanes@) =~= ls.push(None));
    i
}

/// A parent of the commit being placed, and whether the object store has it (a shallow
/// clone's edge does not).
#[derive(Debug, Clone)]
pub struct ParentLink {
    pub oid: String,
    pub present: bool,
}

pub open spec fn link_views(parents: Seq<ParentLink>) -> Seq<(Seq<char>, bool)> {
    parents.map_values(|p: ParentLink| (p.oid@, p.present))
}

/// Places the commit `oid` that the walk just gave, in topological order, so some lane waits
/// for it: it takes the leftmost such lane; any other lane waiting for it converges there and
/// comes free; its first parent continues the lane; other parents take free lanes; if no parent
/// claims the lane (a root, or a shallow edge) the line of that column ends here.
///
/// Returns the commit's lane and, for each parent in order, the lane its edge goes down to.
pub fn place_commit(lanes: &mut Vec<Option<String>>, oid: &String, parents: &[ParentLink]) -> (r: (
    usize,
    Vec<Option<usize>>,
))
    requires
        waits_for(lane_views(old(lanes)@), oid@),
    ensures
        ({
            let (after, lane, edges) = place(lane_views(old(lanes)@), oid@, link_views(parents@));
            &&& lane_views(final(lanes)@) == after
            &&& r.0 == lane
            &&& r.1@.len() == edges.len()
            &&& forall|j: int|
                0 <= j < edges.len() ==> #[trigger] r.1@[j] == match edges[j] {
                    Some(t) => Some(t as usize),
                    None => None,
                }
        }),
        // the commit's lane is the leftmost that waited for it
        lane_views(old(lanes)@)[r.0 as int] == Some(oid@),
        forall|k: int| 0 <= k < r.0 ==> lane_views(old(lanes)@)[k] != Some(oid@),
{
    let ghost start = lane_views(lanes@);
    let ghost ps = link_views(parents@);
    proof {
        lemma_first_waiting(start, oid@);
    }
    // the leftmost waiting lane, and the others freed
    let mut lane: usize = lanes.len();
    let mut i: usize = 0;
    while i < lanes.len()
        invariant
            i <= lanes.len() == start.len(),
            start == lane_views(old(lanes)@),
            0 <= first_waiting(start, oid@) < start.len(),
            start[first_waiting(start, oid@)] == Some(oid@),
            forall|k: int| 0 <= k < first_waiting(start, oid@) ==> #[trigger] start[k] != Some(oid@),
            lane == if i <= first_waiting(start, oid@) {
                lanes.len() as int
            } else {
                first_waiting(start, oid@)
            },
            forall|k: int|
                0 <= k < lanes.len() ==> #[trigger] lane_views(lanes@)[k] == if k < i {
                    converge(start, first_waiting(start, oid@), oid@)[k]
                } else {
                    start[k]
                },
        decreases lanes.len() - i,
    {
        let waiting = match &lanes[i] {
            Some(s) => *s == *oid,
            None => false,
        };
        assert(waiting == (lane_views(lanes@)[i as int] == Some(oid@)));
        if waiting {
            if lane == lanes.len() {
                lane = i;
            } else {
                lanes.set(i, None);
            }
        }
        i += 1;
    }
    let ghost conv = converge(start, lane as int, oid@);
    assert(lane_views(lanes@) =~= conv);
    // the parents
    let mut edges: Vec<Option<usize>> = Vec::new();
    assert(edge_views(edges@) =~= seq![]);
    let mut continues = false;
    let mut k: usize = 0;
    while k < parents.len()
        invariant
            k <= parents.len(),
            ps == link_views(parents@),
            lane < lanes.len(),
            assign(conv, lane as int, ps, 0, seq![], false) == assign(
                lane_views(lanes@),
                lane as int,
                ps,
                k as int,
                edge_views(edges@),
                continues,
            ),
            edges@.len() == k,
            lanes@.len() >= conv.len(),
            lane_views(lanes@)[lane as int] is Some,
        decreases parents.len() - k,
    {
        let p = &parents[k];
        assert(ps[k as int] == (p.oid@, p.present));
        let ghost before = edge_views(edges@);
        if !p.present {
            edges.push(None);
            assert(edge_views(edges@) =~= before.push(None));
        } else {
            let ghost lv = lane_views(lanes@);
            let target: usize;
            if k == 0 {
                continues = true;
                target = lane;
            } else {
                target = free_lane(lanes);
                proof {
                    lemma_free_slot(lv);
                    assert(lane_views(lanes@).len() == lanes@.len());
                }
            }
            assert(target < lanes.len());
            let ghost grown = lane_views(lanes@);
            lanes.set(target, Some(p.oid.clone()));
            assert(lane_views(lanes@) =~= grown.update(target as int, Some(p.oid@)));
            edges.push(Some(target));
            assert(edge_views(edges@) =~= before.push(Some(target as int)));
        }
        k += 1;
    }
    if !continues {
        lanes.set(lane, None);
    }
    proof {
        let (a, e, c) = assign(conv, lane as int, ps, 0, seq![], false);
        assert(e == edge_views(edges@));
        assert forall|j: int| 0 <= j < e.len() implies #[trigger] edges@[j] == match e[j] {
            Some(t) => Some(t as usize),
            None => None,
        } by {
            assert(e[j] == edge_views(edges@)[j]);
        }
        if !continues {
            assert(lane_views(lanes@) =~= a.update(lane as int, None));
        }
    }
    (lane, edges)
}

pub open spec fn edge_views(e: Seq<Option<usize>>) -> Seq<Option<int>> {
    e.map_values(|x: Option<usize>| match x {
        Some(t) => Some(t as int),
        None => None,
    })
}

/// Each edge of a placed commit goes down to a lane that now waits for that parent, no two
/// edges share a lane, a parent missing from a shallow clone has no edge, and the first parent
/// continues the commit's own lane.
pub proof fn law_edges_wait_for_their_parents(
    lanes: Seq<Option<Seq<char>>>,
    oid: Seq<char>,
    parents: Seq<(Seq<char>, bool)>,
)
    requires
        waits_for(lanes, oid),
    ensures
        ({
            let (after, lane, edges) = place(lanes, oid, parents);
            &&& edges.len() == parents.len()
            &&& lanes.len() <= after.len()
            &&& forall|j: int| 0 <= j < edges.len() ==> (#[trigger] edges[j] is Some <==> parents[j].1)
            &&& forall|j: int|
                0 <= j < edges.len() && edges[j] is Some ==> after[#[trigger] edges[j]->0] == Some(
                    parents[j].0,
                )
            &&& forall|i: int, j: int|
                0 <= i < j < edges.len() && edges[i] is Some && edges[j] is Some ==> #[trigger] edges[i]
                    != #[trigger] edges[j]
            &&& (parents.len() > 0 && parents[0].1 ==> edges[0] == Some(lane))
        }),
{
    lemma_first_waiting(lanes, oid);
    let lane = first_waiting(lanes, oid);
    let conv = converge(lanes, lane, oid);
    lemma_assign(conv, lane, parents, 0, seq![], false);
    let (a, e, c) = assign(conv, lane, parents, 0, seq![], false);
    if !c {
        assert forall|j: int| 0 <= j < e.len() && e[j] is Some implies a.update(lane, None)[#[trigger] e[j]->0]
            == Some(parents[j].0) by {
            assert(e[j]->0 != lane);
        }
    }
}

/// `b` is `a` with free lanes added at the end.
pub open spec fn padded(a: Seq<Option<Seq<char>>>, b: Seq<Option<Seq<char>>>) -> bool {
    &&& a.len() <= b.len()
    &&& forall|i: int| 0 <= i < a.len() ==> #[trigger] b[i] == a[i]
    &&& forall|i: int| a.len() <= i < b.len() ==> #[trigger] b[i] is None
}

proof fn lemma_padded_drop_first(a: Seq<Option<Seq<char>>>, b: Seq<Option<Seq<char>>>)
    requires
        padded(a, b),
        a.len() > 0,
    ensures
        padded(a.drop_first(), b.drop_first()),
{
    assert forall|i: int| 0 <= i < a.len() - 1 implies #[trigger] b.drop_first()[i] == a.drop_first()[i] by {
        assert(b[i + 1] == a[i + 1]);
    }
    assert forall|i: int| a.len() - 1 <= i < b.len() - 1 implies #[trigger] b.drop_first()[i] is None by {
        assert(b[i + 1] is None);
    }
}

proof fn lemma_padded_free_slot(a: Seq<Option<Seq<char>>>, b: Seq<Option<Seq<char>>>)
    requires
        padded(a, b),
    ensures
        free_slot(b) == free_slot(a),
    decreases a.len(),
{
    if a.len() == 0 {
        if b.len() > 0 {
            assert(b[0] is None);
        }
    } else {
        assert(b[0] == a[0]);
        lemma_padded_drop_first(a, b);
        lemma_padded_free_slot(a.drop_first(), b.drop_first());
    }
}

proof fn lemma_padded_first_waiting(a: Seq<Option<Seq<char>>>, b: Seq<Option<Seq<char>>>, oid: Seq<char>)
    requires
        padded(a, b),
        waits_for(a, oid),
    ensures
        first_waiting(b, oid) == first_waiting(a, oid),
        waits_for(b, oid),
    decreases a.len(),
{
    let i = choose|i: int| 0 <= i < a.len() && a[i] == Some(oid);
    assert(b[i] == a[i]);
    assert(b[0] == a[0]);
    if a[0] != Some(oid) {
        assert(a.drop_first()[i - 1] == a[i]);
        lemma_padded_drop_first(a, b);
        lemma_padded_first_waiting(a.drop_first(), b.drop_first(), oid);
    }
}

proof fn lemma_padded_update(a: Seq<Option<Seq<char>>>, b: Seq<Option<Seq<char>>>, t: int, x: Option<Seq<char>>)
    requires
        padded(a, b),
        0 <= t < a.len(),
    ensures
        padded(a.update(t, x), b.update(t, x)),
{
    assert forall|i: int| a.len() <= i < b.len() implies #[trigger] b.update(t, x)[i] is None by {
        assert(b[i] is None);
    }
}

proof fn lemma_padded_assign(
    a: Seq<Option<Seq<char>>>,
    b: Seq<Option<Seq<char>>>,
    lane: int,
    parents: Seq<(Seq<char>, bool)>,
    k: int,
    edges: Seq<Option<int>>,
    continues: bool,
)
    requires
        padded(a, b),
        0 <= lane < a.len(),
    ensures
        ({
            let (la, ea, ca) = assign(a, lane, parents, k, edges, continues);
            let (lb, eb, cb) = assign(b, lane, parents, k, edges, continues);
            &&& ea == eb
            &&& ca == cb
            &&& padded(la, lb)
            &&& a.len() <= la.len()
        }),
    decreases parents.len() - k,
{
    if 0 <= k < parents.len() {
        if !parents[k].1 {
            lemma_padded_assign(a, b, lane, parents, k + 1, edges.push(None), continues);
        } else {
            lemma_padded_free_slot(a, b);
            lemma_free_slot(a);
            let target = if k == 0 {
                lane
            } else {
                free_slot(a)
            };
            let ga = if target == a.len() {
                a.push(None)
            } else {
                a
            };
            let gb = if target == b.len() {
                b.push(None)
            } else {
                b
            };
            assert(padded(ga, gb)) by {
                if target == a.len() && a.len() < b.len() {
                    assert(b[a.len() as int] is None);
                    assert forall|i: int| 0 <= i < ga.len() implies #[trigger] gb[i] == ga[i] by {
                        if i < a.len() {
                            assert(b[i] == a[i]);
                        }
                    }
                }
            }
            lemma_padded_update(ga, gb, target, Some(parents[k].0));
            lemma_padded_assign(
                ga.update(target, Some(parents[k].0)),
                gb.update(target, Some(parents[k].0)),
                lane,
                parents,
                k + 1,
                edges.push(Some(target)),
                continues || k == 0,
            );
        }
    }
}

/// Placing a commit does not depend on free lanes at the end: the same lane and edges, and the
/// same lanes after, but for free ones at the end.
proof fn lemma_padded_place(
    a: Seq<Option<Seq<char>>>,
    b: Seq<Option<Seq<char>>>,
    oid: Seq<char>,
    parents: Seq<(Seq<char>, bool)>,
)
    requires
        padded(a, b),
        waits_for(a, oid),
    ensures
        place(b, oid, parents).1 == place(a, oid, parents).1,
        place(b, oid, parents).2 == place(a, oid, parents).2,
        padded(place(a, oid, parents).0, place(b, oid, parents).0),
        waits_for(b, oid),
{
    lemma_padded_first_waiting(a, b, oid);
    lemma_first_waiting(a, oid);
    let lane = first_waiting(a, oid);
    let ca = converge(a, lane, oid);
    let cb = converge(b, lane, oid);
    assert(padded(ca, cb)) by {
        assert forall|i: int| a.len() <= i < b.len() implies #[trigger] cb[i] is None by {
            assert(b[i] is None);
        }
        assert forall|i: int| 0 <= i < a.len() implies #[trigger] cb[i] == ca[i] by {
            assert(b[i] == a[i]);
        }
    }
    lemma_padded_assign(ca, cb, lane, parents, 0, seq![], false);
    let (la, ea, xa) = assign(ca, lane, parents, 0, seq![], false);
    let (lb, eb, xb) = assign(cb, lane, parents, 0, seq![], false);
    if !xa {
        lemma_padded_update(la, lb, lane, None);
    }
}

/// A commit of the walk and its parents, as [`place_commit`] is given them.
pub struct WalkStep {
    pub oid: Seq<char>,
    pub parents: Seq<(Seq<char>, bool)>,
}

/// Every commit of the walk is waited for by some lane when its turn comes.
pub open spec fn walk_ok(lanes: Seq<Option<Seq<char>>>, steps: Seq<WalkStep>) -> bool
    decreases steps.len(),
{
    steps.len() == 0 || (waits_for(lanes, steps[0].oid) && walk_ok(
        place(lanes, steps[0].oid, steps[0].parents).0,
        steps.drop_first(),
    ))
}

/// The lanes after placing the steps one by one, and each commit's lane and edges.
pub open spec fn walk(lanes: Seq<Option<Seq<char>>>, steps: Seq<WalkStep>) -> (
    Seq<Option<Seq<char>>>,
    Seq<(int, Seq<Option<int>>)>,
)
    decreases steps.len(),
{
    if steps.len() == 0 {
        (lanes, seq![])
    } else {
        let (after, lane, edges) = place(lanes, steps[0].oid, steps[0].parents);
        let (end, rest) = walk(after, steps.drop_first());
        (end, seq![(lane, edges)] + rest)
    }
}

proof fn lemma_padded_walk(a: Seq<Option<Seq<char>>>, b: Seq<Option<Seq<char>>>, steps: Seq<WalkStep>)
    requires
        padded(a, b),
        walk_ok(a, steps),
    ensures
        walk_ok(b, steps),
        walk(b, steps).1 == walk(a, steps).1,
        padded(walk(a, steps).0, walk(b, steps).0),
    decreases steps.len(),
{
    if steps.len() > 0 {
        lemma_padded_place(a, b, steps[0].oid, steps[0].parents);
        lemma_padded_walk(
            place(a, steps[0].oid, steps[0].parents).0,
            place(b, steps[0].oid, steps[0].parents).0,
            steps.drop_first(),
        );
    }
}

proof fn lemma_walk_split(lanes: Seq<Option<Seq<char>>>, xs: Seq<WalkStep>, ys: Seq<WalkStep>)
    ensures
        walk(lanes, xs + ys).1 == walk(lanes, xs).1 + walk(walk(lanes, xs).0, ys).1,
        walk(lanes, xs + ys).0 == walk(walk(lanes, xs).0, ys).0,
        walk_ok(lanes, xs + ys) <==> walk_ok(lanes, xs) && walk_ok(walk(lanes, xs).0, ys),
    decreases xs.len(),
{
    if xs.len() == 0 {
        assert(xs + ys =~= ys);
    } else {
        assert((xs + ys).drop_first() =~= xs.drop_first() + ys);
        assert((xs + ys)[0] == xs[0]);
        let after = place(lanes, xs[0].oid, xs[0].parents).0;
        lemma_walk_split(after, xs.drop_first(), ys);
        assert(walk(lanes, xs + ys).1 =~= walk(lanes, xs).1 + walk(walk(lanes, xs).0, ys).1);
    }
}

/// Paging through the log loses nothing and moves nothing: walking some commits, then going
/// on from the lanes the next page's cursor reads back as (the same, without the free lanes at
/// the end), places every later commit in the same lane with the same edges as one walk over
/// all of them would.
pub proof fn law_pages_fit_together(lanes: Seq<Option<Seq<char>>>, first: Seq<WalkStep>, then: Seq<WalkStep>)
    requires
        walk_ok(lanes, first + then),
    ensures
        walk_ok(kept(walk(lanes, first).0), then),
        walk(lanes, first + then).1 == walk(lanes, first).1 + walk(kept(walk(lanes, first).0), then).1,
{
    lemma_walk_split(lanes, first, then);
    let mid = walk(lanes, first).0;
    lemma_last_waiting(mid);
    let k = kept(mid);
    assert(padded(k, mid));
    if then.len() > 0 {
        let i = choose|i: int| 0 <= i < mid.len() && mid[i] == Some(then[0].oid);
        assert(i < k.len());
        assert(k[i] == mid[i]);
        assert(waits_for(k, then[0].oid));
    }
    lemma_kept_walk_ok(k, mid, then);
    lemma_padded_walk(k, mid, then);
}

proof fn lemma_kept_walk_ok(a: Seq<Option<Seq<char>>>, b: Seq<Option<Seq<char>>>, steps: Seq<WalkStep>)
    requires
        padded(a, b),
        walk_ok(b, steps),
    ensures
        walk_ok(a, steps),
    decreases steps.len(),
{
    if steps.len() > 0 {
        let i = choose|i: int| 0 <= i < b.len() && b[i] == Some(steps[0].oid);
        assert(i < a.len());
        assert(a[i] == b[i]);
        lemma_padded_place(a, b, steps[0].oid, steps[0].parents);
        lemma_kept_walk_ok(
            place(a, steps[0].oid, steps[0].parents).0,
            place(b, steps[0].oid, steps[0].parents).0,
            steps.drop_first(),
        );
    }
}

/// The cursor of the next page: `None` when no lane waits for anything (the last page).
pub fn next_cursor(lanes: &Vec<Option<String>>) -> (c: Option<String>)
    ensures
        match c {
            None => forall|i: int| 0 <= i < lanes@.len() ==> #[trigger] lanes@[i] is None,
            Some(t) => (exists|i: int| 0 <= i < lanes@.len() && #[trigger] lanes@[i] is Some) && t@
                == cursor_text(lane_views(lanes@)),
        },
{
    let mut slots: Vec<LaneSlot> = Vec::new();
    let mut pending = false;
    let mut i: usize = 0;
    while i < lanes.len()
        invariant
            i <= lanes.len(),
            slot_views(slots@) =~= lane_views(lanes@).take(i as int),
            pending <==> exists|k: int| 0 <= k < i && #[trigger] lanes@[k] is Some,
        decreases lanes.len() - i,
    {
        let slot = match &lanes[i] {
            Some(oid) => {
                pending = true;
                LaneSlot::Waiting(oid.clone())
            },
            None => LaneSlot::Free,
        };
        let ghost before = slot_views(slots@);
        slots.push(slot);
        assert(slot_views(slots@) =~= before.push(slot@));
        i += 1;
    }
    if pending {
        assert(lane_views(lanes@).take(lanes.len() as int) =~= lane_views(lanes@));
        Some(encode_cursor(slots.as_slice()))
    } else {
        None
    }
}

// ---------------------------------------------------------------------------------------------
// names and paths
// ---------------------------------------------------------------------------------------------
/// The parts of a path split at `/` that are components: empty parts (repeated or trailing
/// separators) and `.` parts are not.
pub open spec fn path_components(parts: Seq<Seq<char>>) -> Seq<Seq<char>>
    decreases parts.len(),
{
    if parts.len() == 0 {
        Seq::empty()
    } else {
        let rest = path_components(parts.drop_last());
        let last = parts.last();
        if last.len() == 0 || last == "."@ {
            rest
        } else {
            rest.push(last)
        }
    }
}

/// What `Path::file_name` gives for a path on Unix: its last component, unless there is none
/// (the root, an empty path, `.`) or it is `..`.
pub open spec fn file_name_of(path: Seq<char>) -> Option<Seq<char>> {
    let cs = path_components(split(path, '/'));
    if cs.len() == 0 || cs.last() == ".."@ {
        None
    } else {
        Some(cs.last())
    }
}

/// `Path::file_name`, as text (the path is UTF-8, so nothing is lost). The contract states what
/// std documents for Unix paths: the components are the parts between separators, repeated
/// separators and `.` parts are normalised away, and the file name is the last component when
/// it is a normal one.
#[verifier::external_body]
fn file_name(path: &str) -> (r: Option<String>)
    ensures
        match r {
            Some(n) => file_name_of(path@) == Some(n@),
            None => file_name_of(path@) is None,
        },
{
    std::path::Path::new(path).file_name().map(|name| name.to_string_lossy().into_owned())
}

/// A display name from a root's last component, without the `.git` a bare repository has.
pub open spec fn name_without_git(name: Seq<char>) -> Seq<char> {
    match strip_suffix(name, ".git"@) {
        Some(n) => n,
        None => name,
    }
}

/// What [`display_name`] shows for a root whose last component is `file` (`None` when it has
/// none, and then the whole path is the name).
pub open spec fn display_name_of(root: Seq<char>, file: Option<Seq<char>>) -> Seq<char> {
    name_without_git(
        match file {
            Some(n) => n,
            None => root,
        },
    )
}

/// `~/Git/porcelain` → `porcelain`; `~/Git/porcelain.git` (bare) → `porcelain`.
pub fn display_name(root: &str) -> (name: String)
    ensures
        name@ == display_name_of(root@, file_name_of(root@)),
{
    let name = match file_name(root) {
        Some(n) => chars_of(n.as_str()),
        None => chars_of(root),
    };
    match strip_suffix_exec(&name, &chars_of(".git")) {
        Some(n) => string_of(&n),
        None => string_of(&name),
    }
}

/// A completion prefix cut at its last `/`: the folder already closed, and what is still being
/// typed inside it. Without any `/`, the folder is the root.
pub open spec fn prefix_parts(prefix: Seq<char>) -> (Seq<char>, Seq<char>) {
    match rindex_of(prefix, '/') {
        Some(at) => (prefix.take(at), prefix.skip(at + 1)),
        None => (seq![], prefix),
    }
}

pub fn split_prefix(prefix: &str) -> (r: (String, String))
    ensures
        (r.0@, r.1@) == prefix_parts(prefix@),
{
    let p = chars_of(prefix);
    match rindex_of_exec(&p, '/') {
        Some(at) => {
            proof {
                lemma_rindex_of(p@, '/');
            }
            let dir = slice_of(&p, 0, at);
            let partial = slice_of(&p, at + 1, p.len());
            assert(dir@ =~= p@.take(at as int));
            assert(partial@ =~= p@.skip(at + 1));
            (string_of(&dir), string_of(&partial))
        },
        None => (string_of(&Vec::new()), string_of(&p)),
    }
}

/// An entry of the folder being completed: its name (`None` when it is not UTF-8) and whether
/// it is a folder itself.
#[derive(Debug, Clone)]
pub struct TreeName {
    pub name: Option<String>,
    pub is_dir: bool,
}

/// The completion an entry gives: the full path, a folder ending in `/` so the UI knows it can
/// go on completing inside it.
pub open spec fn completion(dir: Seq<char>, name: Seq<char>, is_dir: bool) -> Seq<char> {
    let full = if dir.len() == 0 {
        name
    } else {
        dir + seq!['/'] + name
    };
    if is_dir {
        full.push('/')
    } else {
        full
    }
}

/// The completions of the entries from the `k`-th on, given `found` already: at most `limit`,
/// names that are not UTF-8 or do not start with `partial` skipped.
pub open spec fn completions(
    dir: Seq<char>,
    partial: Seq<char>,
    entries: Seq<(Option<Seq<char>>, bool)>,
    limit: int,
    found: Seq<Seq<char>>,
) -> Seq<Seq<char>>
    decreases entries.len(),
{
    if entries.len() == 0 || found.len() >= limit {
        found
    } else {
        let (name, is_dir) = entries[0];
        completions(
            dir,
            partial,
            entries.drop_first(),
            limit,
            match name {
                Some(n) => if partial.is_prefix_of(n) {
                    found.push(completion(dir, n, is_dir))
                } else {
                    found
                },
                None => found,
            },
        )
    }
}

pub open spec fn tree_views(entries: Seq<TreeName>) -> Seq<(Option<Seq<char>>, bool)> {
    entries.map_values(|e: TreeName| (match e.name {
        Some(n) => Some(n@),
        None => None,
    }, e.is_dir))
}

/// The completions of one folder's entries, in the folder's order.
pub fn complete_paths(dir: &str, partial: &str, entries: &[TreeName], limit: usize) -> (r: Vec<
    String,
>)
    ensures
        strs(r@) == completions(dir@, partial@, tree_views(entries@), limit as int, seq![]),
{
    let d = chars_of(dir);
    let part = chars_of(partial);
    let ghost es = tree_views(entries@);
    let mut out: Vec<String> = Vec::new();
    let mut i: usize = 0;
    while i < entries.len()
        invariant
            i <= entries.len(),
            d@ == dir@,
            part@ == partial@,
            es == tree_views(entries@),
            completions(dir@, partial@, es, limit as int, seq![]) == completions(
                dir@,
                partial@,
                es.skip(i as int),
                limit as int,
                strs(out@),
            ),
        decreases entries.len() - i,
    {
        assert(es.skip(i as int)[0] == es[i as int]);
        assert(es.skip(i as int).drop_first() =~= es.skip(i + 1));
        if out.len() >= limit {
            return out;
        }
        let e = &entries[i];
        match &e.name {
            Some(n) => {
                let name = chars_of(n.as_str());
                if starts_with(&name, &part) {
                    let mut full: Vec<char> = Vec::new();
                    if d.len() > 0 {
                        append(&mut full, &d);
                        full.push('/');
                    }
                    append(&mut full, &name);
                    if e.is_dir {
                        full.push('/');
                    }
                    assert(full@ =~= completion(dir@, n@, e.is_dir));
                    let ghost before = strs(out@);
                    out.push(string_of(&full));
                    assert(strs(out@) =~= before.push(full@));
                }
            },
            None => {},
        }
        i += 1;
    }
    out
}

// ---------------------------------------------------------------------------------------------
// the repository's state
// ---------------------------------------------------------------------------------------------
/// The operation libgit2 says is under way, variant for variant.
#[derive(Debug, Clone, Copy, PartialEq, Eq)]
pub enum Operation {
    Clean,
    Merge,
    Revert,
    RevertSequence,
    CherryPick,
    CherryPickSequence,
    Bisect,
    Rebase,
    RebaseInteractive,
    RebaseMerge,
    ApplyMailbox,
    ApplyMailboxOrRebase,
}

/// The state the UI shows for an operation under way. `git am` is none of the five it handles:
/// nearer "nothing blocks a normal commit" than pretending to be a rebase.
pub fn repo_state(op: Operation) -> (s: RepoState)
    ensures
        s == match op {
            Operation::Clean => RepoState::Clean,
            Operation::Merge => RepoState::Merge,
            Operation::Revert | Operation::RevertSequence => RepoState::Revert,
            Operation::CherryPick | Operation::CherryPickSequence => RepoState::CherryPick,
            Operation::Bisect => RepoState::Bisect,
            Operation::Rebase | Operation::RebaseInteractive | Operation::RebaseMerge => RepoState::Rebase,
            Operation::ApplyMailbox | Operation::ApplyMailboxOrRebase => RepoState::Clean,
        },
{
    match op {
        Operation::Clean => RepoState::Clean,
        Operation::Merge => RepoState::Merge,
        Operation::Revert | Operation::RevertSequence => RepoState::Revert,
        Operation::CherryPick | Operation::CherryPickSequence => RepoState::CherryPick,
        Operation::Bisect => RepoState::Bisect,
        Operation::Rebase | Operation::RebaseInteractive | Operation::RebaseMerge => RepoState::Rebase,
        Operation::ApplyMailbox | Operation::ApplyMailboxOrRebase => RepoState::Clean,
    }
}

// ---------------------------------------------------------------------------------------------
// diffstat between two trees
// ---------------------------------------------------------------------------------------------
/// What libgit2 says happened to a file between two trees, variant for variant.
#[derive(Debug, Clone, Copy, PartialEq, Eq)]
pub enum DeltaStatus {
    Unmodified,
    Added,
    Deleted,
    Modified,
    Renamed,
    Copied,
    Ignored,
    Untracked,
    Typechange,
    Unreadable,
    Conflicted,
}

/// A file of the diff as libgit2 lists it: its paths on both sides and its flags.
#[derive(Debug, Clone)]
pub struct DeltaFacts {
    pub status: DeltaStatus,
    pub new_path: Option<String>,
    pub old_path: Option<String>,
    pub binary: bool,
}

/// A line of the diff: the paths of the file it belongs to and its origin (`+`, `-`, ` `, …).
#[derive(Debug, Clone)]
pub struct LineFacts {
    pub new_path: Option<String>,
    pub old_path: Option<String>,
    pub origin: char,
}

/// The path a file is counted under: the new side's, else the old side's, else empty.
pub open spec fn key_of(new_path: Option<Seq<char>>, old_path: Option<Seq<char>>) -> Seq<char> {
    match new_path {
        Some(p) => p,
        None => match old_path {
            Some(p) => p,
            None => Seq::empty(),
        },
    }
}

pub open spec fn line_key(l: LineFacts) -> Seq<char> {
    key_of(opt_str(l.new_path), opt_str(l.old_path))
}

pub open spec fn delta_key(d: DeltaFacts) -> Seq<char> {
    key_of(opt_str(d.new_path), opt_str(d.old_path))
}

/// How many lines of `lines` belong to `path` and have the origin `origin`.
pub open spec fn count_lines(lines: Seq<LineFacts>, path: Seq<char>, origin: char) -> nat
    decreases lines.len(),
{
    if lines.len() == 0 {
        0
    } else {
        count_lines(lines.drop_last(), path, origin) + if line_key(lines.last()) == path
            && lines.last().origin == origin {
            1nat
        } else {
            0nat
        }
    }
}

/// The kind a summary shows: `Modified` stands for every status a diff between two trees does
/// not produce.
pub open spec fn change_kind(s: DeltaStatus) -> FileChangeKind {
    match s {
        DeltaStatus::Added => FileChangeKind::Added,
        DeltaStatus::Deleted => FileChangeKind::Deleted,
        DeltaStatus::Renamed => FileChangeKind::Renamed,
        DeltaStatus::Copied => FileChangeKind::Copied,
        DeltaStatus::Typechange => FileChangeKind::Typechange,
        _ => FileChangeKind::Modified,
    }
}

pub struct ChangeView {
    pub path: Seq<char>,
    pub old_path: Option<Seq<char>>,
    pub kind: FileChangeKind,
    pub insertions: nat,
    pub deletions: nat,
    pub binary: bool,
}

pub open spec fn change_view(f: FileChange) -> ChangeView {
    ChangeView {
        path: f.path@,
        old_path: opt_str(f.old_path),
        kind: f.kind,
        insertions: f.insertions as nat,
        deletions: f.deletions as nat,
        binary: f.binary,
    }
}

/// The summary line of one file: the old path only for a rename or a copy, and only where it
/// differs from the new one.
pub open spec fn change_of(d: DeltaFacts, lines: Seq<LineFacts>) -> ChangeView {
    let kind = change_kind(d.status);
    ChangeView {
        path: delta_key(d),
        old_path: match opt_str(d.old_path) {
            Some(o) => if (kind == FileChangeKind::Renamed || kind == FileChangeKind::Copied) && opt_str(
                d.new_path,
            ) != Some(o) {
                Some(o)
            } else {
                None
            },
            None => None,
        },
        kind,
        insertions: count_lines(lines, delta_key(d), '+'),
        deletions: count_lines(lines, delta_key(d), '-'),
        binary: d.binary,
    }
}

/// The totals: the sum of the files' counts.
pub open spec fn total_lines(deltas: Seq<DeltaFacts>, lines: Seq<LineFacts>, origin: char) -> nat
    decreases deltas.len(),
{
    if deltas.len() == 0 {
        0
    } else {
        total_lines(deltas.drop_last(), lines, origin) + count_lines(lines, delta_key(deltas.last()), origin)
    }
}

proof fn lemma_total_prefix(deltas: Seq<DeltaFacts>, lines: Seq<LineFacts>, origin: char, i: int)
    requires
        0 <= i <= deltas.len(),
    ensures
        total_lines(deltas.take(i), lines, origin) <= total_lines(deltas, lines, origin),
    decreases deltas.len(),
{
    if i < deltas.len() {
        assert(deltas.drop_last().take(i) =~= deltas.take(i));
        lemma_total_prefix(deltas.drop_last(), lines, origin, i);
    } else {
        assert(deltas.take(i) =~= deltas);
    }
}

fn key_chars(new_path: &Option<String>, old_path: &Option<String>) -> (k: Vec<char>)
    ensures
        k@ == key_of(opt_str(*new_path), opt_str(*old_path)),
{
    match new_path {
        Some(p) => chars_of(p.as_str()),
        None => match old_path {
            Some(p) => chars_of(p.as_str()),
            None => Vec::new(),
        },
    }
}

fn count_exec(keys: &Vec<Vec<char>>, lines: &[LineFacts], path: &Vec<char>, origin: char) -> (n: usize)
    requires
        keys@.len() == lines@.len(),
        forall|j: int| 0 <= j < keys@.len() ==> #[trigger] keys@[j]@ == line_key(lines@[j]),
    ensures
        n == count_lines(lines@, path@, origin),
{
    let mut n: usize = 0;
    let mut j: usize = 0;
    while j < lines.len()
        invariant
            j <= lines@.len(),
            keys@.len() == lines@.len(),
            forall|k: int| 0 <= k < keys@.len() ==> #[trigger] keys@[k]@ == line_key(lines@[k]),
            n == count_lines(lines@.take(j as int), path@, origin),
            n <= j,
        decreases lines@.len() - j,
    {
        assert(lines@.take(j + 1).drop_last() =~= lines@.take(j as int));
        if eq(&keys[j], path) && lines[j].origin == origin {
            n += 1;
        }
        j += 1;
    }
    assert(lines@.take(j as int) =~= lines@);
    n
}

/// The diffstat between two trees, from the files libgit2 listed and the lines it walked: the
/// total insertions, the total deletions, and one summary per file in the order listed.
pub fn summarize(deltas: &[DeltaFacts], lines: &[LineFacts]) -> (r: (usize, usize, Vec<FileChange>))
    requires
        total_lines(deltas@, lines@, '+') <= usize::MAX,
        total_lines(deltas@, lines@, '-') <= usize::MAX,
    ensures
        r.0 == total_lines(deltas@, lines@, '+'),
        r.1 == total_lines(deltas@, lines@, '-'),
        r.2@.len() == deltas@.len(),
        forall|i: int| 0 <= i < deltas@.len() ==> change_view(#[trigger] r.2@[i]) == change_of(deltas@[i], lines@),
{
    let mut keys: Vec<Vec<char>> = Vec::new();
    let mut j: usize = 0;
    while j < lines.len()
        invariant
            j <= lines@.len(),
            keys@.len() == j,
            forall|k: int| 0 <= k < j ==> #[trigger] keys@[k]@ == line_key(lines@[k]),
        decreases lines@.len() - j,
    {
        keys.push(key_chars(&lines[j].new_path, &lines[j].old_path));
        j += 1;
    }
    let mut files: Vec<FileChange> = Vec::new();
    let mut insertions: usize = 0;
    let mut deletions: usize = 0;
    let mut i: usize = 0;
    while i < deltas.len()
        invariant
            i <= deltas@.len(),
            keys@.len() == lines@.len(),
            forall|k: int| 0 <= k < keys@.len() ==> #[trigger] keys@[k]@ == line_key(lines@[k]),
            total_lines(deltas@, lines@, '+') <= usize::MAX,
            total_lines(deltas@, lines@, '-') <= usize::MAX,
            insertions == total_lines(deltas@.take(i as int), lines@, '+'),
            deletions == total_lines(deltas@.take(i as int), lines@, '-'),
            files@.len() == i,
            forall|k: int| 0 <= k < i ==> change_view(#[trigger] files@[k]) == change_of(deltas@[k], lines@),
        decreases deltas@.len() - i,
    {
        let d = &deltas[i];
        let key = key_chars(&d.new_path, &d.old_path);
        let ins = count_exec(&keys, lines, &key, '+');
        let del = count_exec(&keys, lines, &key, '-');
        proof {
            assert(deltas@.take(i + 1).drop_last() =~= deltas@.take(i as int));
            lemma_total_prefix(deltas@, lines@, '+', i + 1);
            lemma_total_prefix(deltas@, lines@, '-', i + 1);
        }
        insertions = insertions + ins;
        deletions = deletions + del;
        let kind = match d.status {
            DeltaStatus::Added => FileChangeKind::Added,
            DeltaStatus::Deleted => FileChangeKind::Deleted,
            DeltaStatus::Renamed => FileChangeKind::Renamed,
            DeltaStatus::Copied => FileChangeKind::Copied,
            DeltaStatus::Typechange => FileChangeKind::Typechange,
            _ => FileChangeKind::Modified,
        };
        let renamed = match kind {
            FileChangeKind::Renamed | FileChangeKind::Copied => true,
            _ => false,
        };
        let old_path = match &d.old_path {
            Some(o) => {
                let same = match &d.new_path {
                    Some(n) => eq(&chars_of(n.as_str()), &chars_of(o.as_str())),
                    None => false,
                };
                if renamed && !same {
                    Some(o.clone())
                } else {
                    None
                }
            },
            None => None,
        };
        files.push(FileChange {
            path: string_of(&key),
            old_path,
            kind,
            insertions: ins,
            deletions: del,
            binary: d.binary,
        });
        i += 1;
    }
    assert(deltas@.take(i as int) =~= deltas@);
    (insertions, deletions, files)
}

// ---------------------------------------------------------------------------------------------
// refs and HEAD
// ---------------------------------------------------------------------------------------------
/// The tip a reference name marks in the log, and its short name: local branches, remote
/// branches and tags. `refs/stash`, `refs/notes/…` mark nothing.
pub open spec fn ref_kind_of(name: Seq<char>) -> Option<(RefKind, Seq<char>)> {
    match strip_prefix(name, "refs/heads/"@) {
        Some(short) => Some((RefKind::Branch, short)),
        None => match strip_prefix(name, "refs/remotes/"@) {
            Some(short) => Some((RefKind::Remote, short)),
            None => match strip_prefix(name, "refs/tags/"@) {
                Some(short) => Some((RefKind::Tag, short)),
                None => None,
            },
        },
    }
}

/// The marker a direct reference gets, but for its commit: its kind, its short name, and
/// whether it is the branch `HEAD` points at (`head_branch`, the short name of that branch).
pub fn classify_ref(name: &str, head_branch: Option<&str>) -> (r: Option<(RefKind, String, bool)>)
    ensures
        match ref_kind_of(name@) {
            None => r is None,
            Some((kind, short)) => r is Some && r.unwrap().0 == kind && r.unwrap().1@ == short
                && r.unwrap().2 == (kind == RefKind::Branch && match head_branch {
                Some(h) => h@ == short,
                None => false,
            }),
        },
{
    let n = chars_of(name);
    let (kind, short) = match strip_prefix_exec(&n, &chars_of("refs/heads/")) {
        Some(short) => (RefKind::Branch, short),
        None => match strip_prefix_exec(&n, &chars_of("refs/remotes/")) {
            Some(short) => (RefKind::Remote, short),
            None => match strip_prefix_exec(&n, &chars_of("refs/tags/")) {
                Some(short) => (RefKind::Tag, short),
                None => {
                    return None;
                },
            },
        },
    };
    let is_head = match kind {
        RefKind::Branch => match head_branch {
            Some(h) => eq(&chars_of(h), &short),
            None => false,
        },
        _ => false,
    };
    Some((kind, string_of(&short), is_head))
}

pub open spec fn unborn_name_of(symbolic_target: Option<Seq<char>>) -> Seq<char> {
    match symbolic_target {
        Some(t) => match strip_prefix(t, "refs/heads/"@) {
            Some(name) => name,
            None => "HEAD"@,
        },
        None => "HEAD"@,
    }
}

/// The branch a fresh repository's `HEAD` names before the first commit, from where `HEAD`
/// points (`None` where it could not be read): `HEAD` itself when that is no local branch.
pub fn unborn_name(symbolic_target: Option<&str>) -> (name: String)
    ensures
        name@ == unborn_name_of(
            match symbolic_target {
                Some(t) => Some(t@),
                None => None,
            },
        ),
{
    match symbolic_target {
        Some(t) => match strip_prefix_exec(&chars_of(t), &chars_of("refs/heads/")) {
            Some(name) => string_of(&name),
            None => "HEAD".to_string(),
        },
        None => "HEAD".to_string(),
    }
}

// ---------------------------------------------------------------------------------------------
// a file's diff, from libgit2's patch
// ---------------------------------------------------------------------------------------------
/// A line of a patch as libgit2 gives it: its origin, its numbers and its raw bytes.
#[derive(Debug, Clone)]
pub struct RawLine {
    pub origin: char,
    pub old_lineno: Option<u32>,
    pub new_lineno: Option<u32>,
    pub content: Vec<u8>,
}

/// A hunk of a patch as libgit2 gives it: the raw `@@` line and the lines.
#[derive(Debug, Clone)]
pub struct RawHunk {
    pub header: Vec<u8>,
    pub lines: Vec<RawLine>,
}

pub open spec fn line_kind(origin: char) -> DiffLineKind {
    if origin == '+' {
        DiffLineKind::Addition
    } else if origin == '-' {
        DiffLineKind::Deletion
    } else {
        DiffLineKind::Context
    }
}

/// Every line's content is UTF-8.
pub open spec fn all_text(hunks: Seq<RawHunk>) -> bool {
    forall|i: int, j: int|
        0 <= i < hunks.len() && 0 <= j < hunks[i].lines@.len() ==> #[trigger] valid_utf8(
            hunks[i].lines@[j].content@,
        )
}

/// A line shown as libgit2 gave it, its content decoded and without its final newlines.
pub open spec fn line_shown(l: DiffLine, raw: RawLine) -> bool {
    &&& l.kind == line_kind(raw.origin)
    &&& l.old_lineno == raw.old_lineno
    &&& l.new_lineno == raw.new_lineno
    &&& valid_utf8(raw.content@)
    &&& l.content@ == trim_end_char(decode_utf8(raw.content@), '\n')
}

/// A hunk shown as libgit2 gave it: the header decoded lossily (libgit2 writes it) and without
/// its final newlines, and every line shown.
pub open spec fn hunk_shown(h: DiffHunk, raw: RawHunk) -> bool {
    &&& h.header@ == trim_end_char(utf8_lossy(raw.header@), '\n')
    &&& h.lines@.len() == raw.lines@.len()
    &&& forall|j: int| 0 <= j < raw.lines@.len() ==> line_shown(#[trigger] h.lines@[j], raw.lines@[j])
}

/// The diff the UI draws for one file, from libgit2's patch: `Binary` where libgit2 flagged
/// it; `NotUtf8` where a line's content is not UTF-8 (half text and half mojibake would be
/// worse than either); else the hunks, line for line.
pub fn file_diff(binary: bool, hunks: &[RawHunk]) -> (r: FileDiff)
    ensures
        binary ==> r is Binary,
        !binary && !all_text(hunks@) ==> r is NotUtf8,
        !binary && all_text(hunks@) ==> match r {
            FileDiff::Text { hunks: shown } => shown@.len() == hunks@.len() && forall|i: int|
                0 <= i < hunks@.len() ==> hunk_shown(#[trigger] shown@[i], hunks@[i]),
            _ => false,
        },
{
    if binary {
        return FileDiff::Binary;
    }
    let mut shown: Vec<DiffHunk> = Vec::new();
    let mut i: usize = 0;
    while i < hunks.len()
        invariant
            !binary,
            i <= hunks@.len(),
            shown@.len() == i,
            forall|k: int| 0 <= k < i ==> hunk_shown(#[trigger] shown@[k], hunks@[k]),
        decreases hunks@.len() - i,
    {
        let h = &hunks[i];
        let header = trim_end_char_exec(&lossy_chars(h.header.as_slice()), '\n');
        let mut lines: Vec<DiffLine> = Vec::new();
        let mut j: usize = 0;
        while j < h.lines.len()
            invariant
                !binary,
                h == hunks@[i as int],
                i < hunks@.len(),
                j <= h.lines@.len(),
                lines@.len() == j,
                forall|m: int| 0 <= m < j ==> line_shown(#[trigger] lines@[m], h.lines@[m]),
            decreases h.lines@.len() - j,
        {
            let l = &h.lines[j];
            match utf8_chars(l.content.as_slice()) {
                None => {
                    assert(!valid_utf8(hunks@[i as int].lines@[j as int].content@));
                    return FileDiff::NotUtf8;
                },
                Some(text) => {
                    let kind = if l.origin == '+' {
                        DiffLineKind::Addition
                    } else if l.origin == '-' {
                        DiffLineKind::Deletion
                    } else {
                        DiffLineKind::Context
                    };
                    let content = string_of(&trim_end_char_exec(&text, '\n'));
                    lines.push(
                        DiffLine { kind, old_lineno: l.old_lineno, new_lineno: l.new_lineno, content },
                    );
                },
            }
            j += 1;
        }
        shown.push(DiffHunk { header: string_of(&header), lines });
        i += 1;
    }
    proof {
        assert forall|a: int, b: int|
            0 <= a < hunks@.len() && 0 <= b < hunks@[a].lines@.len() implies #[trigger] valid_utf8(
            hunks@[a].lines@[b].content@,
        ) by {
            assert(hunk_shown(shown@[a], hunks@[a]));
            assert(line_shown(shown@[a].lines@[b], hunks@[a].lines@[b]));
        }
    }
    FileDiff::Text { hunks: shown }
}

// ---------------------------------------------------------------------------------------------
// errors
// ---------------------------------------------------------------------------------------------
/// Why reading a repository failed.
#[derive(Debug, Clone, PartialEq, Eq)]
pub enum GitError {
    NotARepository(String),
    /// libgit2 failed; the text is for the log, not for the user.
    Read(String),
    InvalidCursor,
    InvalidCommit,
    /// The file was not touched by this commit.
    FileNotInCommit,
    /// The path exists but has no change **on this side**: the user can stage it and ask again.
    FileUnchanged,
    /// The patch is not UTF-8: cutting it would give a patch that no longer matches the file.
    NotUtf8,
}

// ---------------------------------------------------------------------------------------------
// what callers ask
// ---------------------------------------------------------------------------------------------
/// Which of the two working-tree diffs: what is out of the commit, or what is already in it.
#[derive(Debug, Clone, Copy, PartialEq, Eq)]
pub enum DiffSide {
    /// Worktree against the index: what `git add` would take.
    Unstaged,
    /// Index against `HEAD`: what the next commit takes.
    Staged,
}

impl DiffSide {
    /// Applying a cut of this side to the index takes it **out** of the index for the staged
    /// side: the patch goes in reverse.
    pub fn reverses(self) -> (b: bool)
        ensures
            b == (self == DiffSide::Staged),
    {
        match self {
            DiffSide::Staged => true,
            DiffSide::Unstaged => false,
        }
    }
}

/// A page of the log: how many commits, from `HEAD` or from the cursor of the page before.
#[derive(Debug, Clone)]
pub struct LogQuery {
    pub limit: usize,
    pub cursor: Option<String>,
}

/// A commit as the indexing walk reads it.
#[derive(Debug, Clone)]
pub struct IndexEntry {
    pub oid: String,
    pub author: String,
    pub email: String,
    pub time: i64,
    pub summary: String,
}

/// A delta is the file at `path`: on its new side, or on either side.
pub open spec fn delta_is(d: DeltaFacts, path: Seq<char>, either_side: bool) -> bool {
    opt_str(d.new_path) == Some(path) || (either_side && opt_str(d.old_path) == Some(path))
}

fn side_is(side: &Option<String>, path: &Vec<char>) -> (b: bool)
    ensures
        b == (opt_str(*side) == Some(path@)),
{
    match side {
        Some(p) => eq(&chars_of(p.as_str()), path),
        None => false,
    }
}

/// Which file of the diff the user asked for: the first whose new path is `path` (or, with
/// `either_side`, whose old path is), so a renamed file is found under the name the interface
/// showed.
pub fn delta_position(deltas: &[DeltaFacts], path: &str, either_side: bool) -> (r: Option<usize>)
    ensures
        match r {
            Some(i) => i < deltas@.len() && delta_is(deltas@[i as int], path@, either_side) && forall|k: int|
                0 <= k < i ==> !delta_is(#[trigger] deltas@[k], path@, either_side),
            None => forall|k: int| 0 <= k < deltas@.len() ==> !delta_is(#[trigger] deltas@[k], path@, either_side),
        },
{
    let p = chars_of(path);
    let mut i: usize = 0;
    while i < deltas.len()
        invariant
            i <= deltas@.len(),
            p@ == path@,
            forall|k: int| 0 <= k < i ==> !delta_is(#[trigger] deltas@[k], path@, either_side),
        decreases deltas@.len() - i,
    {
        if side_is(&deltas[i].new_path, &p) || (either_side && side_is(&deltas[i].old_path, &p)) {
            return Some(i);
        }
        i += 1;
    }
    None
}

/// A file's kind in the diffstat says what the commit did to it: a file the commit creates is
/// `Added`, one it removes `Deleted`, and renames, copies and type changes are named as such;
/// every other status (a modification, or one with no kind of its own) is `Modified`. Its
/// previous path is kept only for a rename or a copy that moved it, and its counts are its
/// own lines.
pub proof fn law_a_file_keeps_what_happened_to_it(d: DeltaFacts, lines: Seq<LineFacts>)
    ensures
        (change_of(d, lines).kind == FileChangeKind::Added) <==> (d.status == DeltaStatus::Added),
        (change_of(d, lines).kind == FileChangeKind::Deleted) <==> (d.status == DeltaStatus::Deleted),
        (change_of(d, lines).kind == FileChangeKind::Renamed) <==> (d.status == DeltaStatus::Renamed),
        (change_of(d, lines).kind == FileChangeKind::Copied) <==> (d.status == DeltaStatus::Copied),
        (change_of(d, lines).kind == FileChangeKind::Typechange) <==> (d.status
            == DeltaStatus::Typechange),
        change_of(d, lines).old_path is Some ==> (d.status == DeltaStatus::Renamed || d.status
            == DeltaStatus::Copied) && opt_str(d.old_path) == change_of(d, lines).old_path
            && opt_str(d.new_path) != change_of(d, lines).old_path,
        change_of(d, lines).binary == d.binary,
        change_of(d, lines).insertions == lines.filter(
            |l: LineFacts| line_key(l) == delta_key(d) && l.origin == '+',
        ).len(),
        change_of(d, lines).deletions == lines.filter(
            |l: LineFacts| line_key(l) == delta_key(d) && l.origin == '-',
        ).len(),
{
    lemma_count_is_filter(lines, delta_key(d), '+');
    lemma_count_is_filter(lines, delta_key(d), '-');
}

proof fn lemma_count_is_filter(lines: Seq<LineFacts>, path: Seq<char>, origin: char)
    ensures
        count_lines(lines, path, origin) == lines.filter(
            |l: LineFacts| line_key(l) == path && l.origin == origin,
        ).len(),
    decreases lines.len(),
{
    reveal(Seq::filter);
    if lines.len() > 0 {
        lemma_count_is_filter(lines.drop_last(), path, origin);
    }
}

} // verus!
