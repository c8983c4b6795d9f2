//! Keyboard pile selection: cycling through the piles and acting on the
//! selected one.

use vstd::prelude::*;
use crate::klondike::card::Card;
use crate::klondike::pile::{Pile, PileType};

verus! {

/// Piles in keyboard-cycling order: Waste, Foundation 0–3, Tableau 0–6.
pub open spec fn cycle_order() -> Seq<PileType> {
    seq![
        PileType::Waste,
        PileType::Foundation(0),
        PileType::Foundation(1),
        PileType::Foundation(2),
        PileType::Foundation(3),
        PileType::Tableau(0),
        PileType::Tableau(1),
        PileType::Tableau(2),
        PileType::Tableau(3),
        PileType::Tableau(4),
        PileType::Tableau(5),
        PileType::Tableau(6),
    ]
}

/// Where cycling starts: just after `current` in the cycle order, or at the
/// front when there is no current pile or it is not in the order.
pub open spec fn cycle_start(current: Option<PileType>) -> int {
    match current {
        Some(PileType::Waste) => 1,
        Some(PileType::Foundation(s)) => if s < 4 {
            2 + s
        } else {
            0
        },
        Some(PileType::Tableau(i)) => if i < 7 {
            6 + i
        } else {
            0
        },
        _ => 0,
    }
}

/// The pile `offset` steps from `start` around the cycle.
pub open spec fn cycle_at(start: int, offset: int) -> PileType {
    cycle_order()[(start + offset) % 12]
}

/// The ordered list of piles considered for keyboard cycling.
fn cycled_piles() -> (piles: Vec<PileType>)
    ensures
        piles@ == cycle_order(),
{
    let mut piles = vec![
        PileType::Waste,
        PileType::Foundation(0),
        PileType::Foundation(1),
        PileType::Foundation(2),
        PileType::Foundation(3),
    ];
    let mut i: usize = 0;
    while i < 7
        invariant
            i <= 7,
            piles@ == cycle_order().subrange(0, 5 + i),
        decreases 7 - i,
    {
        piles.push(PileType::Tableau(i));
        assert(piles@ =~= cycle_order().subrange(0, 5 + i + 1));
        i = i + 1;
    }
    assert(piles@ =~= cycle_order());
    piles
}

fn contains_pile(available: &[PileType], p: PileType) -> (b: bool)
    ensures
        b == available@.contains(p),
{
    let mut i: usize = 0;
    while i < available.len()
        invariant
            i <= available@.len(),
            forall|j: int| 0 <= j < i ==> available@[j] != p,
        decreases available@.len() - i,
    {
        if available[i] == p {
            return true;
        }
        i = i + 1;
    }
    false
}

/// Where cycling starts for the current selection (see [`cycle_start`]).
pub open spec fn start_of(current: Option<&PileType>) -> int {
    match current {
        Some(c) => cycle_start(Some(*c)),
        None => 0,
    }
}

/// `offset` is the first step from `start` that lands on a selectable pile.
pub open spec fn first_selectable(available: Seq<PileType>, start: int, offset: int) -> bool {
    &&& 0 <= offset < 12
    &&& available.contains(cycle_at(start, offset))
    &&& forall|o2: int| 0 <= o2 < offset ==> !available.contains(#[trigger] cycle_at(start, o2))
}

/// The order the keyboard cycles in, step by step: the Waste first, then
/// Foundation 0 to 3, then Tableau 0 to 6, then round to the Waste; so
/// whenever the pile right after `current` can be selected, it is the one
/// chosen (`None` standing for no selection, which starts at the Waste). In
/// particular, from the Waste the lowest selectable foundation comes before
/// any tableau column.
pub open spec fn steps_in_pile_order(
    available: Seq<PileType>,
    current: Option<PileType>,
    r: Option<PileType>,
) -> bool {
    &&& current is None && available.contains(PileType::Waste) ==> r == Some(PileType::Waste)
    &&& current == Some(PileType::Waste) && available.contains(PileType::Foundation(0)) ==> r
        == Some(PileType::Foundation(0))
    &&& match current {
        Some(PileType::Foundation(s)) => s < 3 && available.contains(
            PileType::Foundation((s + 1) as u8),
        ) ==> r == Some(PileType::Foundation((s + 1) as u8)),
        _ => true,
    }
    &&& current == Some(PileType::Foundation(3)) && available.contains(PileType::Tableau(0)) ==> r
        == Some(PileType::Tableau(0))
    &&& match current {
        Some(PileType::Tableau(i)) => i < 6 && available.contains(
            PileType::Tableau((i + 1) as usize),
        ) ==> r == Some(PileType::Tableau((i + 1) as usize)),
        _ => true,
    }
    &&& current == Some(PileType::Tableau(6)) && available.contains(PileType::Waste) ==> r == Some(
        PileType::Waste,
    )
    &&& current == Some(PileType::Waste) ==> forall|k: u8|
        k < 4 && #[trigger] available.contains(PileType::Foundation(k)) ==> (r matches Some(
            PileType::Foundation(j),
        ) && j <= k && available.contains(PileType::Foundation(j)) && forall|i: u8|
            i < j ==> !#[trigger] available.contains(PileType::Foundation(i)))
}

/// The selection's pile, if any.
pub open spec fn current_pile(current: Option<&PileType>) -> Option<PileType> {
    match current {
        Some(c) => Some(*c),
        None => None,
    }
}

proof fn lemma_first_offset(available: Seq<PileType>, start: int, r: Option<PileType>, o: int)
    requires
        r matches Some(p) ==> exists|o: int|
            #[trigger] first_selectable(available, start, o) && p == cycle_at(start, o),
        available.len() > 0 && r is None ==> forall|o: int|
            0 <= o < 12 ==> !available.contains(#[trigger] cycle_at(start, o)),
        0 <= o < 12,
        available.contains(cycle_at(start, o)),
        forall|o2: int| 0 <= o2 < o ==> !available.contains(#[trigger] cycle_at(start, o2)),
    ensures
        r == Some(cycle_at(start, o)),
{
    assert(available.len() > 0);
    if r is None {
        assert(!available.contains(cycle_at(start, o)));
    } else {
        let p = r->0;
        let o1 = choose|o1: int| #[trigger] first_selectable(available, start, o1) && p == cycle_at(start, o1);
        if o1 < o {
            assert(!available.contains(cycle_at(start, o1)));
        } else if o1 > o {
            assert(!available.contains(cycle_at(start, o)));
        }
    }
}

/// Whatever meets the contract of [`cycle_next_pile`] steps through the
/// piles in the cycling order ([`steps_in_pile_order`]).
pub proof fn lemma_cycle_next_pile_order(
    available: Seq<PileType>,
    current: Option<PileType>,
    r: Option<PileType>,
)
    requires
        r matches Some(p) ==> exists|o: int|
            #[trigger] first_selectable(available, cycle_start(current), o) && p == cycle_at(
                cycle_start(current),
                o,
            ),
        available.len() > 0 && r is None ==> forall|o: int|
            0 <= o < 12 ==> !available.contains(#[trigger] cycle_at(cycle_start(current), o)),
    ensures
        steps_in_pile_order(available, current, r),
{
    let start = cycle_start(current);
    let ord = cycle_order();
    assert(ord[0] == PileType::Waste);
    assert(ord[1] == PileType::Foundation(0));
    assert(ord[2] == PileType::Foundation(1));
    assert(ord[3] == PileType::Foundation(2));
    assert(ord[4] == PileType::Foundation(3));
    assert(ord[5] == PileType::Tableau(0));
    assert(ord[6] == PileType::Tableau(1));
    assert(ord[7] == PileType::Tableau(2));
    assert(ord[8] == PileType::Tableau(3));
    assert(ord[9] == PileType::Tableau(4));
    assert(ord[10] == PileType::Tableau(5));
    assert(ord[11] == PileType::Tableau(6));
    let nxt = cycle_at(start, 0);
    if available.contains(nxt) {
        lemma_first_offset(available, start, r, 0);
    }
    if current is None {
        assert(nxt == PileType::Waste);
    }
    if current == Some(PileType::Waste) {
        assert(nxt == PileType::Foundation(0));
        assert forall|k: u8|
            k < 4 && #[trigger] available.contains(PileType::Foundation(k)) implies (r matches Some(
            PileType::Foundation(j),
        ) && j <= k && available.contains(PileType::Foundation(j)) && forall|i: u8|
            i < j ==> !#[trigger] available.contains(PileType::Foundation(i))) by {
            assert(cycle_at(1, 0) == PileType::Foundation(0));
            assert(cycle_at(1, 1) == PileType::Foundation(1));
            assert(cycle_at(1, 2) == PileType::Foundation(2));
            assert(cycle_at(1, 3) == PileType::Foundation(3));
            let o = if available.contains(PileType::Foundation(0)) {
                0int
            } else if available.contains(PileType::Foundation(1)) {
                1int
            } else if available.contains(PileType::Foundation(2)) {
                2int
            } else {
                3int
            };
            assert(cycle_at(1, o) == PileType::Foundation(o as u8));
            lemma_first_offset(available, 1, r, o);
            assert forall|i: u8| i < (o as u8) implies !available.contains(
                PileType::Foundation(i),
            ) by {
                assert(i == 0 || i == 1 || i == 2);
            }
        }
    }
    if let Some(PileType::Foundation(s)) = current {
        if s < 3 {
            assert(start == 2 + s);
            assert(nxt == PileType::Foundation((s + 1) as u8)) by {
                assert(s == 0 || s == 1 || s == 2);
            }
        }
    }
    if current == Some(PileType::Foundation(3)) {
        assert(nxt == PileType::Tableau(0));
    }
    if let Some(PileType::Tableau(i)) = current {
        if i < 6 {
            assert(start == 6 + i);
            assert(nxt == PileType::Tableau((i + 1) as usize)) by {
                assert(i == 0 || i == 1 || i == 2 || i == 3 || i == 4 || i == 5);
            }
        }
    }
    if current == Some(PileType::Tableau(6)) {
        assert(start == 12);
        assert(nxt == PileType::Waste);
    }
}

/// Given the piles that can currently be selected and the current
/// selection, returns the next selectable pile in cycling order, wrapping
/// around. With no current selection the first selectable pile in order is
/// returned; with nothing selectable, `None`.
pub fn cycle_next_pile(available: &[PileType], current: Option<&PileType>) -> (r: Option<PileType>)
    ensures
        steps_in_pile_order(available@, current_pile(current), r),
        available@.len() == 0 ==> r is None,
        r matches Some(p) ==> exists|o: int|
            #[trigger] first_selectable(available@, start_of(current), o) && p == cycle_at(
                start_of(current),
                o,
            ),
        available@.len() > 0 && r is None ==> forall|o: int|
            0 <= o < 12 ==> !available@.contains(#[trigger] cycle_at(start_of(current), o)),
{
    let r = scan_next_pile(available, current);
    proof {
        assert(start_of(current) == cycle_start(current_pile(current)));
        lemma_cycle_next_pile_order(available@, current_pile(current), r);
    }
    r
}

/// The first selectable pile after `current` in the cycle order.
fn scan_next_pile(available: &[PileType], current: Option<&PileType>) -> (r: Option<PileType>)
    ensures
        available@.len() == 0 ==> r is None,
        r matches Some(p) ==> exists|o: int|
            #[trigger] first_selectable(available@, start_of(current), o) && p == cycle_at(
                start_of(current),
                o,
            ),
        available@.len() > 0 && r is None ==> forall|o: int|
            0 <= o < 12 ==> !available@.contains(#[trigger] cycle_at(start_of(current), o)),
{
    if available.len() == 0 {
        return None;
    }
    let order = cycled_piles();
    let start: usize = match current {
        None => 0,
        Some(cur) => {
            match *cur {
                PileType::Waste => 1,
                PileType::Foundation(s) => if s < 4 {
                    2 + s as usize
                } else {
                    0
                },
                PileType::Tableau(i) => if i < 7 {
                    6 + i
                } else {
                    0
                },
                PileType::Stock => 0,
            }
        },
    };
    let ghost gstart: int = start_of(current);
    assert(start == gstart);
    let n = order.len();
    let mut offset: usize = 0;
    while offset < n
        invariant
            n == 12,
            order@ == cycle_order(),
            start == gstart,
            gstart == start_of(current),
            start <= 12,
            offset <= n,
            forall|o2: int| 0 <= o2 < offset ==> !available@.contains(#[trigger] cycle_at(gstart, o2)),
        decreases n - offset,
    {
        let candidate = order[(start + offset) % n];
        assert(candidate == cycle_at(gstart, offset as int));
        if contains_pile(available, candidate) {
            assert(first_selectable(available@, gstart, offset as int));
            return Some(candidate);
        }
        offset = offset + 1;
    }
    None
}

/// The top card of the first pile at or after index `i` of `piles` whose
/// type is `t` (`None` when there is no such pile or it is empty).
pub open spec fn top_card_from(piles: Seq<Pile>, t: PileType, i: int) -> Option<Card>
    decreases piles.len() - i,
{
    if i < 0 || i >= piles.len() {
        None
    } else if piles[i].pile_type == t {
        if piles[i].cards@.len() > 0 {
            Some(piles[i].cards@.last())
        } else {
            None
        }
    } else {
        top_card_from(piles, t, i + 1)
    }
}

/// A pile of type `t` can be selected: its top card is face up.
pub open spec fn is_selectable(piles: Seq<Pile>, t: PileType) -> bool {
    top_card_from(piles, t, 0) matches Some(c) && c.face_up
}

/// The selectable piles among the first `n` of the cycling order, in order.
pub open spec fn selectable_prefix(piles: Seq<Pile>, n: int) -> Seq<PileType>
    decreases n,
{
    if n <= 0 {
        Seq::empty()
    } else if is_selectable(piles, cycle_order()[n - 1]) {
        selectable_prefix(piles, n - 1).push(cycle_order()[n - 1])
    } else {
        selectable_prefix(piles, n - 1)
    }
}

/// `a` comes before `b` in the cycling order: the Waste first, then the
/// foundations by slot, then the tableau columns by index.
pub open spec fn comes_before(a: PileType, b: PileType) -> bool {
    match (a, b) {
        (PileType::Waste, PileType::Foundation(_)) => true,
        (PileType::Waste, PileType::Tableau(_)) => true,
        (PileType::Foundation(x), PileType::Foundation(y)) => x < y,
        (PileType::Foundation(_), PileType::Tableau(_)) => true,
        (PileType::Tableau(x), PileType::Tableau(y)) => x < y,
        _ => false,
    }
}

/// One of the twelve piles the keyboard cycles through.
pub open spec fn is_cycled_pile(p: PileType) -> bool {
    match p {
        PileType::Waste => true,
        PileType::Foundation(s) => s < 4,
        PileType::Tableau(i) => i < 7,
        PileType::Stock => false,
    }
}

proof fn lemma_cycle_order_facts()
    ensures
        forall|k: int, m: int|
            0 <= k < m < 12 ==> comes_before(#[trigger] cycle_order()[k], #[trigger] cycle_order()[m]),
        forall|k: int| 0 <= k < 12 ==> is_cycled_pile(#[trigger] cycle_order()[k]),
        forall|p: PileType| is_cycled_pile(p) ==> #[trigger] cycle_order().contains(p),
{
    let o = cycle_order();
    assert(o[0] == PileType::Waste);
    assert(o[1] == PileType::Foundation(0));
    assert(o[2] == PileType::Foundation(1));
    assert(o[3] == PileType::Foundation(2));
    assert(o[4] == PileType::Foundation(3));
    assert(o[5] == PileType::Tableau(0));
    assert(o[6] == PileType::Tableau(1));
    assert(o[7] == PileType::Tableau(2));
    assert(o[8] == PileType::Tableau(3));
    assert(o[9] == PileType::Tableau(4));
    assert(o[10] == PileType::Tableau(5));
    assert(o[11] == PileType::Tableau(6));
    assert forall|p: PileType| is_cycled_pile(p) implies #[trigger] o.contains(p) by {
        match p {
            PileType::Waste => assert(o[0] == p),
            PileType::Foundation(s) => {
                assert(o[1 + s as int] == p) by {
                    assert(s == 0 || s == 1 || s == 2 || s == 3);
                }
            },
            PileType::Tableau(i) => {
                assert(o[5 + i as int] == p) by {
                    assert(i == 0 || i == 1 || i == 2 || i == 3 || i == 4 || i == 5 || i == 6);
                }
            },
            PileType::Stock => {},
        }
    }
}

proof fn lemma_selectable_prefix_from_order(piles: Seq<Pile>, n: int)
    requires
        0 <= n <= 12,
    ensures
        forall|i: int|
            0 <= i < selectable_prefix(piles, n).len() ==> exists|k: int|
                0 <= k < n && #[trigger] selectable_prefix(piles, n)[i] == cycle_order()[k],
        forall|i: int|
            0 <= i < selectable_prefix(piles, n).len() ==> is_selectable(
                piles,
                #[trigger] selectable_prefix(piles, n)[i],
            ),
        forall|k: int|
            0 <= k < n && is_selectable(piles, #[trigger] cycle_order()[k]) ==> selectable_prefix(
                piles,
                n,
            ).contains(cycle_order()[k]),
        forall|i: int, j: int|
            0 <= i < j < selectable_prefix(piles, n).len() ==> comes_before(
                #[trigger] selectable_prefix(piles, n)[i],
                #[trigger] selectable_prefix(piles, n)[j],
            ),
    decreases n,
{
    lemma_cycle_order_facts();
    if n > 0 {
        lemma_selectable_prefix_from_order(piles, n - 1);
        let a = selectable_prefix(piles, n - 1);
        let x = cycle_order()[n - 1];
        if is_selectable(piles, x) {
            let b = a.push(x);
            assert(selectable_prefix(piles, n) == b);
            assert forall|i: int| 0 <= i < b.len() implies exists|k: int|
                0 <= k < n && #[trigger] b[i] == cycle_order()[k] by {
                if i < a.len() {
                    assert(b[i] == a[i]);
                } else {
                    assert(b[i] == cycle_order()[n - 1]);
                }
            }
            assert forall|i: int| 0 <= i < b.len() implies is_selectable(piles, #[trigger] b[i]) by {
                if i < a.len() {
                    assert(b[i] == a[i]);
                }
            }
            assert forall|k: int| 0 <= k < n && is_selectable(piles, #[trigger] cycle_order()[k]) implies b.contains(
                cycle_order()[k],
            ) by {
                if k < n - 1 {
                    let i = choose|i: int| 0 <= i < a.len() && a[i] == cycle_order()[k];
                    assert(b[i] == a[i]);
                } else {
                    assert(b[b.len() - 1] == x);
                }
            }
            assert forall|i: int, j: int| 0 <= i < j < b.len() implies comes_before(
                #[trigger] b[i],
                #[trigger] b[j],
            ) by {
                assert(b[i] == a[i]);
                if j < a.len() {
                    assert(b[j] == a[j]);
                } else {
                    let k = choose|k: int| 0 <= k < n - 1 && #[trigger] a[i] == cycle_order()[k];
                    assert(b[j] == cycle_order()[n - 1]);
                    assert(comes_before(cycle_order()[k], cycle_order()[n - 1]));
                }
            }
        } else {
            assert(selectable_prefix(piles, n) == a);
        }
    }
}

/// The piles the keyboard can select, as [`selectable_piles`] lists them:
/// exactly the cycled piles whose top card is face up, each once, in
/// cycling order (the Waste, then the foundations by slot, then the tableau
/// columns by index).
pub proof fn lemma_selectable_piles_in_order(piles: Seq<Pile>)
    ensures
        forall|p: PileType|
            #[trigger] selectable_prefix(piles, 12).contains(p) <==> is_cycled_pile(p)
                && is_selectable(piles, p),
        forall|i: int, j: int|
            0 <= i < j < selectable_prefix(piles, 12).len() ==> comes_before(
                #[trigger] selectable_prefix(piles, 12)[i],
                #[trigger] selectable_prefix(piles, 12)[j],
            ),
{
    lemma_cycle_order_facts();
    lemma_selectable_prefix_from_order(piles, 12);
    let r = selectable_prefix(piles, 12);
    assert forall|p: PileType| #[trigger] r.contains(p) <==> is_cycled_pile(p) && is_selectable(piles, p) by {
        if r.contains(p) {
            let i = choose|i: int| 0 <= i < r.len() && r[i] == p;
            assert(is_selectable(piles, r[i]));
            let k = choose|k: int| 0 <= k < 12 && #[trigger] r[i] == cycle_order()[k];
            assert(is_cycled_pile(cycle_order()[k]));
        }
        if is_cycled_pile(p) && is_selectable(piles, p) {
            assert(cycle_order().contains(p));
            let k = choose|k: int| 0 <= k < 12 && cycle_order()[k] == p;
            assert(is_selectable(piles, cycle_order()[k]));
        }
    }
}

fn top_card_of(piles: &[Pile], t: PileType) -> (c: Option<Card>)
    ensures
        c == top_card_from(piles@, t, 0),
{
    let mut i: usize = 0;
    while i < piles.len()
        invariant
            i <= piles@.len(),
            top_card_from(piles@, t, 0) == top_card_from(piles@, t, i as int),
        decreases piles@.len() - i,
    {
        if piles[i].pile_type == t {
            let n = piles[i].cards.len();
            if n > 0 {
                return Some(piles[i].cards[n - 1]);
            } else {
                return None;
            }
        }
        i = i + 1;
    }
    None
}

/// The piles, in cycling order, whose top card is face up: the piles the
/// keyboard selection can land on. `piles` holds the table's piles; when
/// two share a type, the first counts.
pub fn selectable_piles(piles: &[Pile]) -> (r: Vec<PileType>)
    ensures
        r@ == selectable_prefix(piles@, 12),
        forall|p: PileType| #[trigger] r@.contains(p) <==> is_cycled_pile(p) && is_selectable(piles@, p),
        forall|i: int, j: int| 0 <= i < j < r@.len() ==> comes_before(#[trigger] r@[i], #[trigger] r@[j]),
{
    proof {
        lemma_selectable_piles_in_order(piles@);
    }
    let order = cycled_piles();
    let mut r: Vec<PileType> = Vec::new();
    let mut k: usize = 0;
    while k < order.len()
        invariant
            order@ == cycle_order(),
            k <= 12,
            r@ == selectable_prefix(piles@, k as int),
        decreases 12 - k,
    {
        let t = order[k];
        match top_card_of(piles, t) {
            Some(c) => {
                if c.face_up {
                    r.push(t);
                }
            },
            None => {},
        }
        k = k + 1;
    }
    r
}

/// A key the keyboard selection reacts to.
#[derive(Debug, Clone, Copy, PartialEq, Eq, Structural)]
pub enum SelectionKey {
    /// Tab: select the next selectable pile.
    Tab,
    /// Escape: clear the selection.
    Escape,
    /// Enter or Space: move the selected pile's top card.
    Activate,
}

/// A request to move the top `count` cards of `from` onto `to`.
#[derive(Debug, Clone, Copy, PartialEq, Eq, Structural)]
pub struct MoveRequest {
    pub from: PileType,
    pub to: PileType,
    pub count: usize,
}

/// Applies a key press to the keyboard selection `selected`. While the
/// game is paused keys are ignored.
///
/// `available` lists the piles whose top card is face up, and `destination`
/// is the best destination for the selected pile's face-up top card, if it
/// has one and one exists. Tab moves the selection to the next available
/// pile (as [`cycle_next_pile`] picks it), Escape clears it, and Activate
/// requests moving the top card of the selected pile to `destination`,
/// clearing the selection, or does nothing without a selection or a
/// destination.
pub fn handle_selection_key(
    selected: &mut Option<PileType>,
    paused: bool,
    key: SelectionKey,
    available: &[PileType],
    destination: Option<PileType>,
) -> (r: Option<MoveRequest>)
    ensures
        paused ==> r is None && *final(selected) == *old(selected),
        !paused && key == SelectionKey::Tab ==> r is None,
        !paused && key == SelectionKey::Tab && available@.len() == 0 ==> *final(selected) is None,
        !paused && key == SelectionKey::Tab ==> (*final(selected) matches Some(p) ==> exists|o: int|
            #[trigger] first_selectable(available@, cycle_start(*old(selected)), o) && p == cycle_at(
                cycle_start(*old(selected)),
                o,
            )),
        !paused && key == SelectionKey::Tab && available@.len() > 0 && *final(selected) is None ==> forall|
            o: int,
        |
            0 <= o < 12 ==> !available@.contains(#[trigger] cycle_at(cycle_start(*old(selected)), o)),
        !paused && key == SelectionKey::Tab ==> steps_in_pile_order(
            available@,
            *old(selected),
            *final(selected),
        ),
        !paused && key == SelectionKey::Escape ==> r is None && *final(selected) is None,
        !paused && key == SelectionKey::Activate ==> match (*old(selected), destination) {
            (Some(from), Some(to)) => r == Some(MoveRequest { from, to, count: 1 })
                && *final(selected) is None,
            _ => r is None && *final(selected) == *old(selected),
        },
{
    if paused {
        return None;
    }
    match key {
        SelectionKey::Tab => {
            let current = selected.as_ref();
            let next = cycle_next_pile(available, current);
            assert(start_of(current) == cycle_start(*old(selected)));
            assert(current_pile(current) == *old(selected));
            *selected = next;
            None
        },
        SelectionKey::Escape => {
            *selected = None;
            None
        },
        SelectionKey::Activate => {
            match (*selected, destination) {
                (Some(from), Some(to)) => {
                    *selected = None;
                    Some(MoveRequest { from, to, count: 1 })
                },
                _ => None,
            }
        },
    }
}

} // verus!
