//! Constructive solid geometry: merging the hits of a ray with two objects
//! into the hits of their union, intersection or difference.
//!
//! Each object's hits come in the order the object reports them. A hit is
//! known here by whether the ray enters the object there and by its rank:
//! an integer that orders the hits of both objects by distance along the ray
//! (a larger rank is farther away).
use vstd::prelude::*;

verus! {

#[derive(Clone, Copy, Debug, PartialEq, Eq, Structural)]
pub enum CsgMode {
    Union,
    Intersection,
    Difference,
}

/// What the merge does with the nearer pending hits of the two objects.
#[derive(Clone, Copy, Debug, PartialEq, Eq, Structural)]
pub enum CsgAction {
    /// The ray enters the result at object A's hit.
    AEnter,
    /// The ray leaves the result at object A's hit.
    AExit,
    /// Object A's hit is dropped.
    ADrop,
    /// The ray enters the result at object B's hit.
    BEnter,
    /// The ray leaves the result at object B's hit.
    BExit,
    /// Object B's hit is dropped.
    BDrop,
}

/// A hit as the merge sees it.
#[derive(Clone, Copy, Debug, PartialEq, Eq, Structural)]
pub struct HitKey {
    pub entering: bool,
    pub rank: u64,
}

#[derive(Clone, Copy, Debug, PartialEq, Eq, Structural)]
pub enum Side {
    /// Object A.
    Left,
    /// Object B.
    Right,
}

/// A hit of the combined object: which object's hit, its index in that
/// object's hits, and whether the ray enters the combined object there.
#[derive(Clone, Copy, Debug, PartialEq, Eq, Structural)]
pub struct CsgPick {
    pub side: Side,
    pub index: usize,
    pub entering: bool,
}

/// The state of a merge step: `4` when the ray enters A, plus `2` when it
/// enters B, plus `1` when A's hit is farther than B's.
pub open spec fn step_state(a: HitKey, b: HitKey) -> int {
    (if a.entering {
        4int
    } else {
        0int
    }) + (if b.entering {
        2int
    } else {
        0int
    }) + (if a.rank > b.rank {
        1int
    } else {
        0int
    })
}

/// The action table of each mode, indexed by the step state.
pub open spec fn action_table(mode: CsgMode, state: int) -> CsgAction {
    match mode {
        CsgMode::Union => if state == 0 {
            CsgAction::ADrop
        } else if state == 1 {
            CsgAction::BDrop
        } else if state == 2 {
            CsgAction::AExit
        } else if state == 3 {
            CsgAction::BDrop
        } else if state == 4 {
            CsgAction::ADrop
        } else if state == 5 {
            CsgAction::BExit
        } else if state == 6 {
            CsgAction::AEnter
        } else {
            CsgAction::BEnter
        },
        CsgMode::Intersection => if state == 0 {
            CsgAction::AExit
        } else if state == 1 {
            CsgAction::BExit
        } else if state == 2 {
            CsgAction::ADrop
        } else if state == 3 {
            CsgAction::BEnter
        } else if state == 4 {
            CsgAction::AEnter
        } else if state == 5 {
            CsgAction::BDrop
        } else if state == 6 {
            CsgAction::ADrop
        } else {
            CsgAction::BDrop
        },
        CsgMode::Difference => if state == 0 {
            CsgAction::ADrop
        } else if state == 1 {
            CsgAction::BEnter
        } else if state == 2 {
            CsgAction::AExit
        } else if state == 3 {
            CsgAction::BExit
        } else if state == 4 {
            CsgAction::ADrop
        } else if state == 5 {
            CsgAction::BDrop
        } else if state == 6 {
            CsgAction::AEnter
        } else {
            CsgAction::BDrop
        },
    }
}

/// The hits `hits[i..]` of one object, passed on unchanged.
pub open spec fn pass_on(side: Side, hits: Seq<HitKey>, i: int) -> Seq<CsgPick>
    decreases hits.len() - i,
{
    if i < 0 || i >= hits.len() {
        Seq::empty()
    } else {
        seq![CsgPick { side, index: i as usize, entering: hits[i].entering }] + pass_on(
            side,
            hits,
            i + 1,
        )
    }
}

/// What is left when one object has no pending hits: in a difference A's
/// remaining hits, in a union the remaining hits of both, in an intersection
/// nothing.
pub open spec fn leftover(mode: CsgMode, a: Seq<HitKey>, b: Seq<HitKey>, i: int, j: int) -> Seq<
    CsgPick,
> {
    match mode {
        CsgMode::Difference => pass_on(Side::Left, a, i),
        CsgMode::Union => pass_on(Side::Left, a, i) + pass_on(Side::Right, b, j),
        CsgMode::Intersection => Seq::empty(),
    }
}

/// The hits of the combined object, from the pending hits `a[i..]`, `b[j..]`.
pub open spec fn merge(mode: CsgMode, a: Seq<HitKey>, b: Seq<HitKey>, i: int, j: int) -> Seq<CsgPick>
    decreases a.len() - i + b.len() - j,
{
    if i < 0 || j < 0 || i >= a.len() || j >= b.len() {
        leftover(mode, a, b, i, j)
    } else {
        match action_table(mode, step_state(a[i], b[j])) {
            CsgAction::AEnter => seq![CsgPick { side: Side::Left, index: i as usize, entering: true }]
                + merge(mode, a, b, i + 1, j),
            CsgAction::AExit => seq![CsgPick { side: Side::Left, index: i as usize, entering: false }]
                + merge(mode, a, b, i + 1, j),
            CsgAction::ADrop => merge(mode, a, b, i + 1, j),
            CsgAction::BEnter => seq![CsgPick { side: Side::Right, index: j as usize, entering: true }]
                + merge(mode, a, b, i, j + 1),
            CsgAction::BExit => seq![CsgPick { side: Side::Right, index: j as usize, entering: false }]
                + merge(mode, a, b, i, j + 1),
            CsgAction::BDrop => merge(mode, a, b, i, j + 1),
        }
    }
}

/// The combined hits of objects A and B.
pub open spec fn combined(mode: CsgMode, a: Seq<HitKey>, b: Seq<HitKey>) -> Seq<CsgPick> {
    merge(mode, a, b, 0, 0)
}

/// The action for the nearer pending hits.
pub fn action(mode: CsgMode, a: HitKey, b: HitKey) -> (r: CsgAction)
    ensures
        r == action_table(mode, step_state(a, b)),
{
    let mut state: usize = 0;
    if a.entering {
        state += 4;
    }
    if b.entering {
        state += 2;
    }
    if a.rank > b.rank {
        state += 1;
    }
    let table = match mode {
        CsgMode::Union => [
            CsgAction::ADrop,
            CsgAction::BDrop,
            CsgAction::AExit,
            CsgAction::BDrop,
            CsgAction::ADrop,
            CsgAction::BExit,
            CsgAction::AEnter,
            CsgAction::BEnter,
        ],
        CsgMode::Intersection => [
            CsgAction::AExit,
            CsgAction::BExit,
            CsgAction::ADrop,
            CsgAction::BEnter,
            CsgAction::AEnter,
            CsgAction::BDrop,
            CsgAction::ADrop,
            CsgAction::BDrop,
        ],
        CsgMode::Difference => [
            CsgAction::ADrop,
            CsgAction::BEnter,
            CsgAction::AExit,
            CsgAction::BExit,
            CsgAction::ADrop,
            CsgAction::BDrop,
            CsgAction::AEnter,
            CsgAction::BDrop,
        ],
    };
    table[state]
}

fn pass_on_exec(side: Side, hits: &Vec<HitKey>, i: usize, out: &mut Vec<CsgPick>)
    requires
        i <= hits.len(),
    ensures
        final(out)@ == old(out)@ + pass_on(side, hits@, i as int),
{
    let mut k = i;
    while k < hits.len()
        invariant
            i <= k <= hits.len(),
            old(out)@ + pass_on(side, hits@, i as int) == out@ + pass_on(side, hits@, k as int),
        decreases hits.len() - k,
    {
        let p = CsgPick { side, index: k, entering: hits[k].entering };
        assert(out@.push(p) + pass_on(side, hits@, k + 1) =~= out@ + pass_on(side, hits@, k as int));
        out.push(p);
        k += 1;
    }
    assert(out@ + pass_on(side, hits@, k as int) =~= out@);
}

/// The hits of the combined object, as picks among the hits of A and B.
pub fn combine(mode: CsgMode, a: &Vec<HitKey>, b: &Vec<HitKey>) -> (r: Vec<CsgPick>)
    ensures
        r@ == combined(mode, a@, b@),
{
    let mut out: Vec<CsgPick> = Vec::new();
    let mut i: usize = 0;
    let mut j: usize = 0;
    assert(out@ + combined(mode, a@, b@) =~= combined(mode, a@, b@));
    while i < a.len() && j < b.len()
        invariant
            i <= a.len(),
            j <= b.len(),
            out@ + merge(mode, a@, b@, i as int, j as int) == combined(mode, a@, b@),
        decreases a.len() - i + b.len() - j,
    {
        let act = action(mode, a[i], b[j]);
        match act {
            CsgAction::AEnter | CsgAction::AExit => {
                let p = CsgPick { side: Side::Left, index: i, entering: act == CsgAction::AEnter };
                assert(out@.push(p) + merge(mode, a@, b@, i + 1, j as int) =~= out@ + merge(
                    mode,
                    a@,
                    b@,
                    i as int,
                    j as int,
                ));
                out.push(p);
                i += 1;
            },
            CsgAction::ADrop => {
                i += 1;
            },
            CsgAction::BEnter | CsgAction::BExit => {
                let p = CsgPick { side: Side::Right, index: j, entering: act == CsgAction::BEnter };
                assert(out@.push(p) + merge(mode, a@, b@, i as int, j + 1) =~= out@ + merge(
                    mode,
                    a@,
                    b@,
                    i as int,
                    j as int,
                ));
                out.push(p);
                j += 1;
            },
            CsgAction::BDrop => {
                j += 1;
            },
        }
    }
    match mode {
        CsgMode::Difference => {
            pass_on_exec(Side::Left, a, i, &mut out);
        },
        CsgMode::Union => {
            pass_on_exec(Side::Left, a, i, &mut out);
            pass_on_exec(Side::Right, b, j, &mut out);
            assert(out@ =~= combined(mode, a@, b@));
        },
        CsgMode::Intersection => {
            assert(out@ + Seq::<CsgPick>::empty() =~= out@);
        },
    }
    out
}

/// Picks that name hits of A from index `i` and of B from index `j` on,
/// each object's hits in increasing order, none twice.
pub open spec fn well_ordered(out: Seq<CsgPick>, a_len: int, b_len: int, i: int, j: int) -> bool {
    &&& forall|k: int|
        0 <= k < out.len() && (#[trigger] out[k]).side == Side::Left ==> i <= out[k].index < a_len
    &&& forall|k: int|
        0 <= k < out.len() && (#[trigger] out[k]).side == Side::Right ==> j <= out[k].index < b_len
    &&& forall|p: int, q: int|
        0 <= p < q < out.len() && (#[trigger] out[p]).side == (#[trigger] out[q]).side
            ==> out[p].index < out[q].index
}

proof fn lemma_pass_on(side: Side, hits: Seq<HitKey>, i: int)
    requires
        0 <= i <= hits.len(),
        hits.len() <= usize::MAX,
    ensures
        pass_on(side, hits, i).len() == hits.len() - i,
        forall|k: int|
            0 <= k < hits.len() - i ==> #[trigger] pass_on(side, hits, i)[k] == (CsgPick {
                side,
                index: (i + k) as usize,
                entering: hits[i + k].entering,
            }),
    decreases hits.len() - i,
{
    if i < hits.len() {
        lemma_pass_on(side, hits, i + 1);
        let rest = pass_on(side, hits, i + 1);
        assert forall|k: int| 0 <= k < hits.len() - i implies #[trigger] pass_on(side, hits, i)[k]
            == (CsgPick { side, index: (i + k) as usize, entering: hits[i + k].entering }) by {
            if k > 0 {
                assert(pass_on(side, hits, i)[k] == rest[k - 1]);
            }
        }
    }
}

#[verifier::spinoff_prover]
#[verifier::rlimit(40)]
proof fn lemma_merge_ordered(mode: CsgMode, a: Seq<HitKey>, b: Seq<HitKey>, i: int, j: int)
    requires
        0 <= i <= a.len(),
        0 <= j <= b.len(),
        a.len() <= usize::MAX,
        b.len() <= usize::MAX,
    ensures
        well_ordered(merge(mode, a, b, i, j), a.len() as int, b.len() as int, i, j),
        merge(mode, a, b, i, j).len() <= a.len() - i + b.len() - j,
    decreases a.len() - i + b.len() - j,
{
    let out = merge(mode, a, b, i, j);
    if i >= a.len() || j >= b.len() {
        lemma_pass_on(Side::Left, a, i);
        lemma_pass_on(Side::Right, b, j);
        let pa = pass_on(Side::Left, a, i);
        let pb = pass_on(Side::Right, b, j);
        match mode {
            CsgMode::Union => {
                assert forall|k: int| 0 <= k < out.len() implies (out[k].side == Side::Left ==> k
                    < pa.len() && out[k] == pa[k]) && (out[k].side == Side::Right ==> k >= pa.len()
                    && out[k] == pb[k - pa.len()]) by {
                    if k < pa.len() {
                        assert(out[k] == pa[k]);
                    } else {
                        assert(out[k] == pb[k - pa.len()]);
                    }
                }
            },
            _ => {},
        }
    } else {
        match action_table(mode, step_state(a[i], b[j])) {
            CsgAction::AEnter | CsgAction::AExit => {
                lemma_merge_ordered(mode, a, b, i + 1, j);
                let rest = merge(mode, a, b, i + 1, j);
                assert forall|k: int| 0 < k < out.len() implies #[trigger] out[k] == rest[k - 1] by {}
            },
            CsgAction::ADrop => {
                lemma_merge_ordered(mode, a, b, i + 1, j);
            },
            CsgAction::BEnter | CsgAction::BExit => {
                lemma_merge_ordered(mode, a, b, i, j + 1);
                let rest = merge(mode, a, b, i, j + 1);
                assert forall|k: int| 0 < k < out.len() implies #[trigger] out[k] == rest[k - 1] by {}
            },
            CsgAction::BDrop => {
                lemma_merge_ordered(mode, a, b, i, j + 1);
            },
        }
    }
}

/// The combined hits name hits of A and B that exist, each object's in the
/// order the object gave them and none twice; so there are no more of them
/// than A and B have together.
pub proof fn law_combined_picks_in_order(mode: CsgMode, a: Seq<HitKey>, b: Seq<HitKey>)
    requires
        a.len() <= usize::MAX,
        b.len() <= usize::MAX,
    ensures
        well_ordered(combined(mode, a, b), a.len() as int, b.len() as int, 0, 0),
        combined(mode, a, b).len() <= a.len() + b.len(),
{
    lemma_merge_ordered(mode, a, b, 0, 0);
}

/// When B has no hits, the union and the difference are A unchanged, and the
/// intersection has no hits.
pub proof fn law_combine_with_nothing(a: Seq<HitKey>)
    ensures
        combined(CsgMode::Union, a, Seq::empty()) == pass_on(Side::Left, a, 0),
        combined(CsgMode::Difference, a, Seq::empty()) == pass_on(Side::Left, a, 0),
        combined(CsgMode::Intersection, a, Seq::empty()) == Seq::<CsgPick>::empty(),
{
    assert(pass_on(Side::Left, a, 0) + pass_on(Side::Right, Seq::<HitKey>::empty(), 0) =~= pass_on(
        Side::Left,
        a,
        0,
    ));
}

/// When A has no hits, the union is B unchanged, and the intersection and
/// the difference have no hits.
pub proof fn law_nothing_combined_with(b: Seq<HitKey>)
    ensures
        combined(CsgMode::Union, Seq::empty(), b) == pass_on(Side::Right, b, 0),
        combined(CsgMode::Difference, Seq::empty(), b) == Seq::<CsgPick>::empty(),
        combined(CsgMode::Intersection, Seq::empty(), b) == Seq::<CsgPick>::empty(),
{
    assert(pass_on(Side::Left, Seq::<HitKey>::empty(), 0) + pass_on(Side::Right, b, 0) =~= pass_on(
        Side::Right,
        b,
        0,
    ));
}


/// Whether the ray is inside a solid at rank `x`, having been inside (`d`)
/// before the hits `s`: the hits are met in increasing rank, and each one
/// at or before `x` puts the ray inside when it enters and outside when it
/// leaves.
pub open spec fn inside_after(s: Seq<HitKey>, x: int, d: bool) -> bool
    decreases s.len(),
{
    if s.len() == 0 {
        d
    } else if s[0].rank <= x {
        inside_after(s.drop_first(), x, s[0].entering)
    } else {
        d
    }
}

/// Whether rank `x` along the ray lies inside the solid with hits `s`.
pub open spec fn inside_at(s: Seq<HitKey>, x: int) -> bool {
    inside_after(s, x, false)
}

/// The hits of a closed solid along a ray: in increasing rank, entering and
/// leaving in turn, the first entering and the last leaving.
pub open spec fn solid_hits(h: Seq<HitKey>) -> bool {
    &&& h.len() % 2 == 0
    &&& forall|k: int| 0 <= k < h.len() ==> (#[trigger] h[k]).entering == (k % 2 == 0)
    &&& forall|p: int, q: int| 0 <= p < q < h.len() ==> (#[trigger] h[p]).rank < (#[trigger] h[q]).rank
}

/// No hit of A lies at the same rank as a hit of B.
pub open spec fn apart(a: Seq<HitKey>, b: Seq<HitKey>) -> bool {
    forall|p: int, q: int| 0 <= p < a.len() && 0 <= q < b.len() ==> (#[trigger] a[p]).rank != (
    #[trigger] b[q]).rank
}

/// Inside the combined solid, given inside A and inside B.
pub open spec fn combine_inside(mode: CsgMode, in_a: bool, in_b: bool) -> bool {
    match mode {
        CsgMode::Union => in_a || in_b,
        CsgMode::Intersection => in_a && in_b,
        CsgMode::Difference => in_a && !in_b,
    }
}

/// A pick as a hit of the combined solid: its rank is that of the hit it
/// names, and it enters where the pick says.
pub open spec fn pick_hit(a: Seq<HitKey>, b: Seq<HitKey>, p: CsgPick) -> HitKey {
    HitKey {
        entering: p.entering,
        rank: match p.side {
            Side::Left => a[p.index as int].rank,
            Side::Right => b[p.index as int].rank,
        },
    }
}

pub open spec fn picked_hits(a: Seq<HitKey>, b: Seq<HitKey>, picks: Seq<CsgPick>) -> Seq<HitKey> {
    picks.map_values(|p: CsgPick| pick_hit(a, b, p))
}

proof fn lemma_pass_on_hits(a: Seq<HitKey>, b: Seq<HitKey>, i: int)
    requires
        0 <= i <= a.len(),
        0 <= i <= b.len() || true,
        a.len() <= usize::MAX,
        b.len() <= usize::MAX,
    ensures
        picked_hits(a, b, pass_on(Side::Left, a, i)) == a.skip(i),
{
    lemma_pass_on(Side::Left, a, i);
    assert(picked_hits(a, b, pass_on(Side::Left, a, i)) =~= a.skip(i));
}

proof fn lemma_pass_on_hits_right(a: Seq<HitKey>, b: Seq<HitKey>, j: int)
    requires
        0 <= j <= b.len(),
        b.len() <= usize::MAX,
    ensures
        picked_hits(a, b, pass_on(Side::Right, b, j)) == b.skip(j),
{
    lemma_pass_on(Side::Right, b, j);
    assert(picked_hits(a, b, pass_on(Side::Right, b, j)) =~= b.skip(j));
}

proof fn lemma_merge_inside(mode: CsgMode, a: Seq<HitKey>, b: Seq<HitKey>, i: int, j: int, x: int)
    requires
        solid_hits(a),
        solid_hits(b),
        apart(a, b),
        0 <= i <= a.len(),
        0 <= j <= b.len(),
        a.len() <= usize::MAX,
        b.len() <= usize::MAX,
    ensures
        inside_after(
            picked_hits(a, b, merge(mode, a, b, i, j)),
            x,
            combine_inside(mode, i % 2 == 1, j % 2 == 1),
        ) == combine_inside(
            mode,
            inside_after(a.skip(i), x, i % 2 == 1),
            inside_after(b.skip(j), x, j % 2 == 1),
        ),
    decreases a.len() - i + b.len() - j,
{
    let ca = i % 2 == 1;
    let cb = j % 2 == 1;
    if i >= a.len() || j >= b.len() {
        lemma_pass_on_hits(a, b, i);
        lemma_pass_on_hits_right(a, b, j);
        let pa = pass_on(Side::Left, a, i);
        let pb = pass_on(Side::Right, b, j);
        if i >= a.len() {
            assert(a.skip(i) =~= Seq::<HitKey>::empty());
            assert(pa =~= Seq::<CsgPick>::empty()) by {
                lemma_pass_on(Side::Left, a, i);
            }
        }
        if j >= b.len() {
            assert(b.skip(j) =~= Seq::<HitKey>::empty());
            assert(pb =~= Seq::<CsgPick>::empty()) by {
                lemma_pass_on(Side::Right, b, j);
            }
        }
        match mode {
            CsgMode::Union => {
                assert(picked_hits(a, b, pa + pb) =~= picked_hits(a, b, pa) + picked_hits(a, b, pb));
                if i >= a.len() {
                    assert(a.skip(i) + b.skip(j) =~= b.skip(j));
                } else {
                    assert(a.skip(i) + b.skip(j) =~= a.skip(i));
                }
            },
            CsgMode::Intersection => {
                assert(picked_hits(a, b, Seq::<CsgPick>::empty()) =~= Seq::<HitKey>::empty());
            },
            CsgMode::Difference => {},
        }
    } else {
        let sa = a.skip(i);
        let sb = b.skip(j);
        assert(a[i].entering == !ca);
        assert(b[j].entering == !cb);
        assert(a[i].rank != b[j].rank);
        assert(sa[0] == a[i]);
        assert(sa.drop_first() =~= a.skip(i + 1));
        assert(sb[0] == b[j]);
        assert(sb.drop_first() =~= b.skip(j + 1));
        if i + 1 < a.len() {
            assert(a.skip(i + 1)[0] == a[i + 1]);
            assert(a[i].rank < a[i + 1].rank);
        }
        if j + 1 < b.len() {
            assert(b.skip(j + 1)[0] == b[j + 1]);
            assert(b[j].rank < b[j + 1].rank);
        }
        let act = action_table(mode, step_state(a[i], b[j]));
        match act {
            CsgAction::AEnter | CsgAction::AExit => {
                lemma_merge_inside(mode, a, b, i + 1, j, x);
                let rest = merge(mode, a, b, i + 1, j);
                let p = CsgPick { side: Side::Left, index: i as usize, entering: act == CsgAction::AEnter };
                assert(merge(mode, a, b, i, j) == seq![p] + rest);
                let ph = picked_hits(a, b, seq![p] + rest);
                assert(ph[0] == pick_hit(a, b, p));
                assert(ph.drop_first() =~= picked_hits(a, b, rest));
            },
            CsgAction::ADrop => {
                lemma_merge_inside(mode, a, b, i + 1, j, x);
            },
            CsgAction::BEnter | CsgAction::BExit => {
                lemma_merge_inside(mode, a, b, i, j + 1, x);
                let rest = merge(mode, a, b, i, j + 1);
                let p = CsgPick { side: Side::Right, index: j as usize, entering: act == CsgAction::BEnter };
                assert(merge(mode, a, b, i, j) == seq![p] + rest);
                let ph = picked_hits(a, b, seq![p] + rest);
                assert(ph[0] == pick_hit(a, b, p));
                assert(ph.drop_first() =~= picked_hits(a, b, rest));
            },
            CsgAction::BDrop => {
                lemma_merge_inside(mode, a, b, i, j + 1, x);
            },
        }
    }
}

/// For closed solids A and B whose hits lie at different ranks, a rank along
/// the ray lies inside the combined solid exactly when it lies inside A or B
/// (union), inside both (intersection), or inside A and not B (difference).
pub proof fn law_combined_inside(mode: CsgMode, a: Seq<HitKey>, b: Seq<HitKey>, x: int)
    requires
        solid_hits(a),
        solid_hits(b),
        apart(a, b),
        a.len() <= usize::MAX,
        b.len() <= usize::MAX,
    ensures
        inside_at(picked_hits(a, b, combined(mode, a, b)), x) == combine_inside(
            mode,
            inside_at(a, x),
            inside_at(b, x),
        ),
{
    lemma_merge_inside(mode, a, b, 0, 0, x);
    assert(a.skip(0) =~= a);
    assert(b.skip(0) =~= b);
}


/// Hits that enter and leave in turn, the first doing the opposite of
/// `inside`, and that end outside.
pub open spec fn alternates_from(s: Seq<HitKey>, inside: bool) -> bool
    decreases s.len(),
{
    if s.len() == 0 {
        !inside
    } else {
        s[0].entering == !inside && alternates_from(s.drop_first(), s[0].entering)
    }
}

pub open spec fn rising(s: Seq<HitKey>) -> bool {
    forall|p: int, q: int| 0 <= p < q < s.len() ==> (#[trigger] s[p]).rank < (#[trigger] s[q]).rank
}

proof fn lemma_alternates_solid(s: Seq<HitKey>, inside: bool)
    requires
        alternates_from(s, inside),
    ensures
        forall|k: int| 0 <= k < s.len() ==> (#[trigger] s[k]).entering == (if k % 2 == 0 {
            !inside
        } else {
            inside
        }),
        s.len() % 2 == (if inside {
            1int
        } else {
            0int
        }),
    decreases s.len(),
{
    if s.len() > 0 {
        let t = s.drop_first();
        lemma_alternates_solid(t, s[0].entering);
        assert forall|k: int| 0 <= k < s.len() implies (#[trigger] s[k]).entering == (if k % 2 == 0 {
            !inside
        } else {
            inside
        }) by {
            if k > 0 {
                assert(s[k] == t[k - 1]);
            }
        }
    }
}

proof fn lemma_skip_alternates(a: Seq<HitKey>, i: int)
    requires
        solid_hits(a),
        0 <= i <= a.len(),
    ensures
        alternates_from(a.skip(i), i % 2 == 1),
        rising(a.skip(i)),
    decreases a.len() - i,
{
    if i < a.len() {
        lemma_skip_alternates(a, i + 1);
        assert(a.skip(i)[0] == a[i]);
        assert(a.skip(i).drop_first() =~= a.skip(i + 1));
    } else {
        assert(a.skip(i) =~= Seq::<HitKey>::empty());
    }
}

#[verifier::spinoff_prover]
#[verifier::rlimit(40)]
proof fn lemma_merge_shape(mode: CsgMode, a: Seq<HitKey>, b: Seq<HitKey>, i: int, j: int)
    requires
        solid_hits(a),
        solid_hits(b),
        apart(a, b),
        0 <= i <= a.len(),
        0 <= j <= b.len(),
        a.len() <= usize::MAX,
        b.len() <= usize::MAX,
    ensures
        alternates_from(
            picked_hits(a, b, merge(mode, a, b, i, j)),
            combine_inside(mode, i % 2 == 1, j % 2 == 1),
        ),
        rising(picked_hits(a, b, merge(mode, a, b, i, j))),
    decreases a.len() - i + b.len() - j,
{
    let ca = i % 2 == 1;
    let cb = j % 2 == 1;
    if i >= a.len() || j >= b.len() {
        lemma_pass_on_hits(a, b, i);
        lemma_pass_on_hits_right(a, b, j);
        lemma_skip_alternates(a, i);
        lemma_skip_alternates(b, j);
        let pa = pass_on(Side::Left, a, i);
        let pb = pass_on(Side::Right, b, j);
        if i >= a.len() {
            assert(a.skip(i) =~= Seq::<HitKey>::empty());
            assert(pa =~= Seq::<CsgPick>::empty()) by {
                lemma_pass_on(Side::Left, a, i);
            }
        }
        if j >= b.len() {
            assert(b.skip(j) =~= Seq::<HitKey>::empty());
            assert(pb =~= Seq::<CsgPick>::empty()) by {
                lemma_pass_on(Side::Right, b, j);
            }
        }
        match mode {
            CsgMode::Union => {
                assert(picked_hits(a, b, pa + pb) =~= picked_hits(a, b, pa) + picked_hits(a, b, pb));
                if i >= a.len() {
                    assert(a.skip(i) + b.skip(j) =~= b.skip(j));
                } else {
                    assert(a.skip(i) + b.skip(j) =~= a.skip(i));
                }
            },
            CsgMode::Intersection => {
                assert(picked_hits(a, b, Seq::<CsgPick>::empty()) =~= Seq::<HitKey>::empty());
            },
            CsgMode::Difference => {
                if i >= a.len() {
                    assert(picked_hits(a, b, pa) =~= Seq::<HitKey>::empty());
                }
            },
        }
    } else {
        assert(a[i].entering == !ca);
        assert(b[j].entering == !cb);
        assert(a[i].rank != b[j].rank);
        let act = action_table(mode, step_state(a[i], b[j]));
        match act {
            CsgAction::AEnter | CsgAction::AExit => {
                lemma_merge_shape(mode, a, b, i + 1, j);
                lemma_merge_ordered(mode, a, b, i + 1, j);
                let rest = merge(mode, a, b, i + 1, j);
                let p = CsgPick { side: Side::Left, index: i as usize, entering: act == CsgAction::AEnter };
                assert(merge(mode, a, b, i, j) == seq![p] + rest);
                let pr = picked_hits(a, b, rest);
                let ph = picked_hits(a, b, seq![p] + rest);
                assert(ph =~= seq![pick_hit(a, b, p)] + pr);
                assert(ph.drop_first() =~= pr);
                assert forall|k: int| 0 <= k < pr.len() implies (#[trigger] pr[k]).rank > a[i].rank by {
                    assert(pr[k] == pick_hit(a, b, rest[k]));
                    if rest[k].side == Side::Left {
                        assert(a[rest[k].index as int].rank > a[i].rank);
                    } else {
                        assert(b[rest[k].index as int].rank >= b[j].rank);
                    }
                }
                assert forall|p1: int, q1: int| 0 <= p1 < q1 < ph.len() implies (#[trigger] ph[p1]).rank
                    < (#[trigger] ph[q1]).rank by {
                    if p1 == 0 {
                        assert(ph[q1] == pr[q1 - 1]);
                    } else {
                        assert(ph[p1] == pr[p1 - 1]);
                        assert(ph[q1] == pr[q1 - 1]);
                    }
                }
            },
            CsgAction::ADrop => {
                lemma_merge_shape(mode, a, b, i + 1, j);
            },
            CsgAction::BEnter | CsgAction::BExit => {
                lemma_merge_shape(mode, a, b, i, j + 1);
                lemma_merge_ordered(mode, a, b, i, j + 1);
                let rest = merge(mode, a, b, i, j + 1);
                let p = CsgPick { side: Side::Right, index: j as usize, entering: act == CsgAction::BEnter };
                assert(merge(mode, a, b, i, j) == seq![p] + rest);
                let pr = picked_hits(a, b, rest);
                let ph = picked_hits(a, b, seq![p] + rest);
                assert(ph =~= seq![pick_hit(a, b, p)] + pr);
                assert(ph.drop_first() =~= pr);
                assert forall|k: int| 0 <= k < pr.len() implies (#[trigger] pr[k]).rank > b[j].rank by {
                    assert(pr[k] == pick_hit(a, b, rest[k]));
                    if rest[k].side == Side::Left {
                        assert(a[rest[k].index as int].rank >= a[i].rank);
                    } else {
                        assert(b[rest[k].index as int].rank > b[j].rank);
                    }
                }
                assert forall|p1: int, q1: int| 0 <= p1 < q1 < ph.len() implies (#[trigger] ph[p1]).rank
                    < (#[trigger] ph[q1]).rank by {
                    if p1 == 0 {
                        assert(ph[q1] == pr[q1 - 1]);
                    } else {
                        assert(ph[p1] == pr[p1 - 1]);
                        assert(ph[q1] == pr[q1 - 1]);
                    }
                }
            },
            CsgAction::BDrop => {
                lemma_merge_shape(mode, a, b, i, j + 1);
            },
        }
    }
}

/// The combined hits of two closed solids whose hits lie at different
/// ranks are those of a closed solid again: in increasing rank, entering
/// and leaving in turn, first entering and last leaving.
pub proof fn law_combined_is_solid(mode: CsgMode, a: Seq<HitKey>, b: Seq<HitKey>)
    requires
        solid_hits(a),
        solid_hits(b),
        apart(a, b),
        a.len() <= usize::MAX,
        b.len() <= usize::MAX,
    ensures
        solid_hits(picked_hits(a, b, combined(mode, a, b))),
{
    lemma_merge_shape(mode, a, b, 0, 0);
    lemma_alternates_solid(picked_hits(a, b, combined(mode, a, b)), false);
}

} // verus!
