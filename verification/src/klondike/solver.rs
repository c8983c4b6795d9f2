//! Klondike solvability checker.
//!
//! A depth-first search over solver states with memoisation on a canonical
//! state hash. Moves are enumerated in priority order (foundation moves,
//! then tableau-to-tableau, then waste-to-tableau, then drawing); the search
//! stops at the first winning position or when the move or state budget is
//! spent.
//!
//! The central guarantee: when the search answers "winnable", a line of
//! legal Klondike moves from the start position to a won position exists.
//! When it answers "unwinnable", the positions it entered form a finite
//! family around the start position, none of them won, that every candidate
//! move leads back into up to the hash.

use std::collections::hash_map::DefaultHasher;
use std::collections::HashSet;
use std::hash::Hasher;
use vstd::std_specs::hash::DefaultHasherAdditionalSpecFns;
use vstd::multiset::Multiset;
use vstd::prelude::*;
use crate::klondike::card::{rank_value, Card, Rank, Suit};
use crate::klondike::deck::{
    deal_klondike, dealt_column, dealt_stock, fresh_deck, flip_top, seeded_shuffle, Deck,
};
use crate::klondike::game_state::{draw_count, DrawMode};
use crate::klondike::pile::{Pile, PileType};
use crate::klondike::rules::{
    can_place_on_foundation, can_place_on_tableau, foundation_accepts, is_tableau_run, stacks_on,
    tableau_accepts,
};

verus! {

broadcast use vstd::std_specs::hash::group_hash_axioms;

/// Verdict returned by [`try_solve`].
#[derive(Debug, Clone, Copy, PartialEq, Eq, Structural)]
pub enum SolverResult {
    /// The solver found a sequence of moves that wins the deal.
    Winnable,
    /// The search ran out of moves to try without finding a win.
    Unwinnable,
    /// A budget was exhausted before a verdict was reached. Callers treat
    /// this as winnable since nothing was proved otherwise.
    Inconclusive,
}

/// Budgets bounding how long [`try_solve`] searches.
#[derive(Debug, Clone, Copy, PartialEq, Eq, Structural)]
pub struct SolverConfig {
    /// Maximum total moves to consider across the whole search tree.
    pub move_budget: u64,
    /// Maximum number of distinct states to visit.
    pub state_budget: usize,
}

impl Default for SolverConfig {
    fn default() -> (c: Self)
        ensures
            c.move_budget == 100_000,
            c.state_budget == 200_000,
    {
        SolverConfig { move_budget: 100_000, state_budget: 200_000 }
    }
}

/// The candidate moves the solver considers.
#[derive(Debug, Clone, Copy, PartialEq, Eq, Structural)]
pub enum SolverMove {
    /// Move the top `count` cards of one tableau column onto another.
    TableauToTableau { from: usize, to: usize, count: usize },
    /// Move the top of a tableau column to a foundation slot.
    TableauToFoundation { from: usize, slot: u8 },
    /// Move the top of the waste to a tableau column.
    WasteToTableau { to: usize },
    /// Move the top of the waste to a foundation slot.
    WasteToFoundation { slot: u8 },
    /// Draw from the stock to the waste, or recycle the waste when the stock is empty.
    Draw,
}

/// Mathematical model of a [`SolverState`].
pub struct SolverView {
    /// The seven tableau columns, bottom first.
    pub tableau: Seq<Seq<Card>>,
    /// The four foundation slots, bottom first.
    pub foundation: Seq<Seq<Card>>,
    /// The stock; draws take from its end.
    pub stock: Seq<Card>,
    /// The waste; its last card is playable.
    pub waste: Seq<Card>,
    /// Cards per draw.
    pub draw_mode: DrawMode,
    /// Whether the last move was a draw.
    pub just_drew: bool,
    /// Draws since the last non-draw move.
    pub consecutive_draws: u32,
    /// The move that led to this position, if any.
    pub last_move: Option<SolverMove>,
}

/// Compact game position used by the solver.
pub struct SolverState {
    /// The seven tableau columns, bottom first.
    pub tableau: [Vec<Card>; 7],
    /// The four foundation slots, bottom first.
    pub foundation: [Vec<Card>; 4],
    /// The stock; draws take from its end.
    pub stock: Vec<Card>,
    /// The waste; its last card is playable.
    pub waste: Vec<Card>,
    /// Cards per draw.
    pub draw_mode: DrawMode,
    /// True right after a draw, until a non-draw move is made.
    pub just_drew: bool,
    /// Draws performed since the last non-draw move.
    pub consecutive_draws: u32,
    /// The move that led to this position, if any; tableau moves that
    /// would undo it are not offered.
    pub last_move: Option<SolverMove>,
}

impl View for SolverState {
    type V = SolverView;

    open spec fn view(&self) -> SolverView {
        SolverView {
            tableau: Seq::new(7, |i: int| self.tableau[i]@),
            foundation: Seq::new(4, |i: int| self.foundation[i]@),
            stock: self.stock@,
            waste: self.waste@,
            draw_mode: self.draw_mode,
            just_drew: self.just_drew,
            consecutive_draws: self.consecutive_draws,
            last_move: self.last_move,
        }
    }
}

/// Bookkeeping returned by [`SolverState::apply_move`]: the search flags as
/// they were before the move.
pub struct SolverStateUndo {
    /// `just_drew` before the move.
    pub prev_just_drew: bool,
    /// `consecutive_draws` before the move.
    pub prev_consec: u32,
}

// ---------------------------------------------------------------------------
// The model: positions, legal moves, their effect, winning lines
// ---------------------------------------------------------------------------

/// Seven tableau columns and four foundation slots, each column short
/// enough to be indexed by a `usize`.
pub open spec fn view_wf(v: SolverView) -> bool {
    &&& v.tableau.len() == 7
    &&& v.foundation.len() == 4
    &&& forall|i: int| 0 <= i < 7 ==> #[trigger] v.tableau[i].len() <= usize::MAX
}

/// Every foundation slot holds thirteen cards.
pub open spec fn is_won_view(v: SolverView) -> bool {
    forall|i: int| 0 <= i < 4 ==> #[trigger] v.foundation[i].len() == 13
}

/// The first slot at or after `i` whose bottom card has `suit`.
pub open spec fn first_claimed_slot(f: Seq<Seq<Card>>, suit: Suit, i: int) -> Option<u8>
    decreases 4 - i,
{
    if i >= 4 || i < 0 {
        None
    } else if f[i].len() > 0 && f[i][0].suit == suit {
        Some(i as u8)
    } else {
        first_claimed_slot(f, suit, i + 1)
    }
}

/// The first empty slot at or after `i`.
pub open spec fn first_empty_slot(f: Seq<Seq<Card>>, i: int) -> Option<u8>
    decreases 4 - i,
{
    if i >= 4 || i < 0 {
        None
    } else if f[i].len() == 0 {
        Some(i as u8)
    } else {
        first_empty_slot(f, i + 1)
    }
}

/// The foundation slot a card of `suit` goes to: the first slot claiming
/// `suit`, otherwise the first empty slot.
pub open spec fn target_slot(f: Seq<Seq<Card>>, suit: Suit) -> Option<u8> {
    match first_claimed_slot(f, suit, 0) {
        Some(s) => Some(s),
        None => first_empty_slot(f, 0),
    }
}

/// Length of the run of face-up cards at the top of `cards` in which each
/// card stacks on the one below it.
pub open spec fn face_up_run(cards: Seq<Card>) -> nat
    decreases cards.len(),
{
    if cards.len() == 0 || !cards.last().face_up {
        0
    } else if cards.len() >= 2 && cards[cards.len() - 2].face_up && stacks_on(
        cards.last(),
        cards[cards.len() - 2],
    ) {
        1 + face_up_run(cards.drop_last())
    } else {
        1
    }
}

/// `s` with every card turned face up.
pub open spec fn all_face_up(s: Seq<Card>) -> Seq<Card> {
    s.map_values(|c: Card| Card { face_up: true, ..c })
}

/// The stock rebuilt from `waste` by a recycle: reversed, face down.
pub open spec fn recycled(waste: Seq<Card>) -> Seq<Card> {
    Seq::new(waste.len(), |i: int| Card { face_up: false, ..waste[waste.len() - 1 - i] })
}

/// Whether a move's indices fit the position, where playing it touches
/// them: a move whose source is empty changes no pile, so only its source
/// index has to fit.
pub open spec fn move_in_bounds(v: SolverView, mv: SolverMove) -> bool {
    match mv {
        SolverMove::TableauToTableau { from, to, count } => from < 7 && to < 7 && count
            <= v.tableau[from as int].len(),
        SolverMove::TableauToFoundation { from, slot } => from < 7 && (v.tableau[from as int].len()
            > 0 ==> slot < 4),
        SolverMove::WasteToTableau { to } => v.waste.len() > 0 ==> to < 7,
        SolverMove::WasteToFoundation { slot } => v.waste.len() > 0 ==> slot < 4,
        SolverMove::Draw => true,
    }
}

/// A move allowed by the Klondike rules in position `v`.
pub open spec fn is_legal_move(v: SolverView, mv: SolverMove) -> bool {
    &&& view_wf(v)
    &&& match mv {
        SolverMove::TableauToTableau { from, to, count } => {
            let col = v.tableau[from as int];
            let run = col.subrange(col.len() - count, col.len() as int);
            &&& from < 7
            &&& to < 7
            &&& from != to
            &&& 1 <= count <= col.len()
            &&& forall|k: int| 0 <= k < run.len() ==> (#[trigger] run[k]).face_up
            &&& is_tableau_run(run)
            &&& tableau_accepts(run[0], v.tableau[to as int])
        },
        SolverMove::TableauToFoundation { from, slot } => {
            let col = v.tableau[from as int];
            &&& from < 7
            &&& slot < 4
            &&& col.len() > 0
            &&& col.last().face_up
            &&& foundation_accepts(col.last(), v.foundation[slot as int])
        },
        SolverMove::WasteToTableau { to } => {
            &&& to < 7
            &&& v.waste.len() > 0
            &&& tableau_accepts(v.waste.last(), v.tableau[to as int])
        },
        SolverMove::WasteToFoundation { slot } => {
            &&& slot < 4
            &&& v.waste.len() > 0
            &&& foundation_accepts(v.waste.last(), v.foundation[slot as int])
        },
        SolverMove::Draw => v.stock.len() > 0 || v.waste.len() > 0,
    }
}

/// The position after playing `mv` in `v`.
pub open spec fn apply_move_view(v: SolverView, mv: SolverMove) -> SolverView {
    match mv {
        SolverMove::TableauToTableau { from, to, count } => {
            let col = v.tableau[from as int];
            let start = col.len() - count;
            let t1 = v.tableau.update(from as int, col.subrange(0, start));
            let t2 = t1.update(to as int, t1[to as int] + col.subrange(start, col.len() as int));
            let t3 = t2.update(from as int, flip_top(t2[from as int]));
            SolverView { tableau: t3, just_drew: false, consecutive_draws: 0, last_move: Some(mv), ..v }
        },
        SolverMove::TableauToFoundation { from, slot } => {
            let col = v.tableau[from as int];
            if col.len() > 0 {
                SolverView {
                    tableau: v.tableau.update(from as int, flip_top(col.drop_last())),
                    foundation: v.foundation.update(
                        slot as int,
                        v.foundation[slot as int].push(col.last()),
                    ),
                    just_drew: false,
                    consecutive_draws: 0,
                    last_move: Some(mv),
                    ..v
                }
            } else {
                SolverView { just_drew: false, consecutive_draws: 0, last_move: Some(mv), ..v }
            }
        },
        SolverMove::WasteToTableau { to } => {
            if v.waste.len() > 0 {
                SolverView {
                    tableau: v.tableau.update(to as int, v.tableau[to as int].push(v.waste.last())),
                    waste: v.waste.drop_last(),
                    just_drew: false,
                    consecutive_draws: 0,
                    last_move: Some(mv),
                    ..v
                }
            } else {
                SolverView { just_drew: false, consecutive_draws: 0, last_move: Some(mv), ..v }
            }
        },
        SolverMove::WasteToFoundation { slot } => {
            if v.waste.len() > 0 {
                SolverView {
                    foundation: v.foundation.update(
                        slot as int,
                        v.foundation[slot as int].push(v.waste.last()),
                    ),
                    waste: v.waste.drop_last(),
                    just_drew: false,
                    consecutive_draws: 0,
                    last_move: Some(mv),
                    ..v
                }
            } else {
                SolverView { just_drew: false, consecutive_draws: 0, last_move: Some(mv), ..v }
            }
        },
        SolverMove::Draw => {
            let consec = if v.consecutive_draws == u32::MAX {
                v.consecutive_draws
            } else {
                (v.consecutive_draws + 1) as u32
            };
            if v.stock.len() == 0 {
                SolverView {
                    stock: recycled(v.waste),
                    waste: Seq::empty(),
                    just_drew: true,
                    consecutive_draws: consec,
                    last_move: Some(mv),
                    ..v
                }
            } else {
                let avail = if v.stock.len() < draw_count(v.draw_mode) {
                    v.stock.len() as int
                } else {
                    draw_count(v.draw_mode) as int
                };
                let start = v.stock.len() - avail;
                SolverView {
                    stock: v.stock.subrange(0, start),
                    waste: v.waste + all_face_up(v.stock.subrange(start, v.stock.len() as int)),
                    just_drew: true,
                    consecutive_draws: consec,
                    last_move: Some(mv),
                    ..v
                }
            }
        },
    }
}

/// The position reached from `v` by playing `line` in order.
pub open spec fn play_line(v: SolverView, line: Seq<SolverMove>) -> SolverView
    decreases line.len(),
{
    if line.len() == 0 {
        v
    } else {
        apply_move_view(play_line(v, line.drop_last()), line.last())
    }
}

/// Every move of `line` is legal in the position it is played from.
pub open spec fn is_legal_line(v: SolverView, line: Seq<SolverMove>) -> bool
    decreases line.len(),
{
    if line.len() == 0 {
        true
    } else {
        is_legal_line(v, line.drop_last()) && is_legal_move(
            play_line(v, line.drop_last()),
            line.last(),
        )
    }
}

/// Some line of legal moves leads from `v` to a won position.
pub open spec fn is_winnable(v: SolverView) -> bool {
    exists|line: Seq<SolverMove>| is_legal_line(v, line) && is_won_view(#[trigger] play_line(v, line))
}

/// Extending a legal line by a move that is legal at its end gives a legal
/// line ending where that move leads.
pub proof fn lemma_line_extend(v: SolverView, line: Seq<SolverMove>, mv: SolverMove)
    requires
        is_legal_line(v, line),
        is_legal_move(play_line(v, line), mv),
    ensures
        is_legal_line(v, line.push(mv)),
        play_line(v, line.push(mv)) == apply_move_view(play_line(v, line), mv),
{
    assert(line.push(mv).drop_last() =~= line);
}

/// Every move of `line` is one of the candidates the solver enumerates in
/// the position it is played from.
pub open spec fn is_candidate_line(v: SolverView, line: Seq<SolverMove>) -> bool
    decreases line.len(),
{
    if line.len() == 0 {
        true
    } else {
        is_candidate_line(v, line.drop_last()) && candidate_moves(
            play_line(v, line.drop_last()),
        ).contains(line.last())
    }
}

/// Some line of the solver's own candidate moves leads from `v` to a won
/// position.
pub open spec fn is_winnable_by_candidates(v: SolverView) -> bool {
    exists|line: Seq<SolverMove>|
        is_candidate_line(v, line) && is_won_view(#[trigger] play_line(v, line))
}

proof fn lemma_candidate_line_extend(v: SolverView, line: Seq<SolverMove>, mv: SolverMove)
    requires
        is_candidate_line(v, line),
        candidate_moves(play_line(v, line)).contains(mv),
    ensures
        is_candidate_line(v, line.push(mv)),
{
    assert(line.push(mv).drop_last() =~= line);
}


// ---------------------------------------------------------------------------
// Card conservation
// ---------------------------------------------------------------------------

/// What a card is, apart from which way up it lies: its id, suit and rank.
pub open spec fn card_identity(c: Card) -> (u32, Suit, Rank) {
    (c.id, c.suit, c.rank)
}

/// The identities of the cards of `s`, as a multiset.
pub open spec fn card_idents(s: Seq<Card>) -> Multiset<(u32, Suit, Rank)> {
    s.map_values(|c: Card| card_identity(c)).to_multiset()
}

/// The identities of the cards in piles `0..n` of `piles`.
pub open spec fn piles_idents(piles: Seq<Seq<Card>>, n: int) -> Multiset<(u32, Suit, Rank)>
    decreases n,
{
    if n <= 0 {
        Multiset::empty()
    } else {
        piles_idents(piles, n - 1).add(card_idents(piles[n - 1]))
    }
}

/// The identities of every card in position `v`.
pub open spec fn position_idents(v: SolverView) -> Multiset<(u32, Suit, Rank)> {
    piles_idents(v.tableau, 7).add(piles_idents(v.foundation, 4)).add(card_idents(v.stock)).add(
        card_idents(v.waste),
    )
}

proof fn lemma_card_ids_concat(a: Seq<Card>, b: Seq<Card>)
    ensures
        card_idents(a + b) =~= card_idents(a).add(card_idents(b)),
{
    broadcast use vstd::multiset::group_multiset_axioms;

    let f = |c: Card| card_identity(c);
    assert((a + b).map_values(f) =~= a.map_values(f) + b.map_values(f));
    vstd::seq_lib::lemma_multiset_commutative(a.map_values(f), b.map_values(f));
}

proof fn lemma_card_ids_split(s: Seq<Card>, k: int)
    requires
        0 <= k <= s.len(),
    ensures
        card_idents(s) =~= card_idents(s.subrange(0, k)).add(card_idents(s.subrange(k, s.len() as int))),
{
    broadcast use vstd::multiset::group_multiset_axioms;

    assert(s =~= s.subrange(0, k) + s.subrange(k, s.len() as int));
    lemma_card_ids_concat(s.subrange(0, k), s.subrange(k, s.len() as int));
}

proof fn lemma_card_ids_faces(s: Seq<Card>, t: Seq<Card>)
    requires
        s.len() == t.len(),
        forall|i: int| 0 <= i < s.len() ==> card_identity(#[trigger] s[i]) == card_identity(t[i]),
    ensures
        card_idents(s) == card_idents(t),
{
    let f = |c: Card| card_identity(c);
    assert(s.map_values(f) =~= t.map_values(f));
}

proof fn lemma_card_ids_flip_top(s: Seq<Card>)
    ensures
        card_idents(flip_top(s)) == card_idents(s),
{
    lemma_card_ids_faces(flip_top(s), s);
}

proof fn lemma_card_ids_reverse(s: Seq<Card>)
    ensures
        card_idents(recycled(s)) =~= card_idents(s),
    decreases s.len(),
{
    broadcast use vstd::multiset::group_multiset_axioms;

    if s.len() > 0 {
        let d = s.drop_first();
        lemma_card_ids_reverse(d);
        let last = Card { face_up: false, ..s[0] };
        assert(recycled(s) =~= recycled(d) + seq![last]);
        lemma_card_ids_concat(recycled(d), seq![last]);
        lemma_card_ids_concat(seq![s[0]], d);
        assert(s =~= seq![s[0]] + d);
        lemma_card_ids_faces(seq![last], seq![s[0]]);
        assert(card_idents(recycled(s)) =~= card_idents(s));
    } else {
        lemma_card_ids_faces(recycled(s), s);
    }
}

proof fn lemma_idents_cancel<A>(a: Multiset<A>, b: Multiset<A>, c: Multiset<A>)
    requires
        a.add(c) == b.add(c),
    ensures
        a == b,
{
    broadcast use vstd::multiset::group_multiset_axioms;

    assert forall|x: A| a.count(x) == b.count(x) by {
        vstd::multiset::axiom_multiset_add(a, c, x);
        vstd::multiset::axiom_multiset_add(b, c, x);
        assert(a.add(c).count(x) == b.add(c).count(x));
    }
    assert(a =~= b);
}

proof fn lemma_piles_ids_update(piles: Seq<Seq<Card>>, n: int, i: int, x: Seq<Card>)
    requires
        0 <= i < n <= piles.len(),
    ensures
        piles_idents(piles.update(i, x), n).add(card_idents(piles[i])) =~= piles_idents(piles, n).add(
            card_idents(x),
        ),
    decreases n,
{
    broadcast use vstd::multiset::group_multiset_axioms;

    let u = piles.update(i, x);
    if n - 1 > i {
        lemma_piles_ids_update(piles, n - 1, i, x);
        assert(u[n - 1] == piles[n - 1]);
        let a = piles_idents(u, n - 1);
        let b = piles_idents(piles, n - 1);
        let y = card_idents(piles[n - 1]);
        assert(a.add(card_idents(piles[i])) == b.add(card_idents(x)));
        assert(piles_idents(u, n).add(card_idents(piles[i])) =~= a.add(card_idents(piles[i])).add(y));
        assert(piles_idents(piles, n).add(card_idents(x)) =~= b.add(card_idents(x)).add(y));
    } else {
        assert(piles_idents(u, n - 1) == piles_idents(piles, n - 1)) by {
            lemma_piles_ids_same(u, piles, n - 1);
        }
        assert(u[n - 1] == x);
    }
}

proof fn lemma_piles_ids_same(a: Seq<Seq<Card>>, b: Seq<Seq<Card>>, n: int)
    requires
        n <= a.len(),
        n <= b.len(),
        forall|j: int| 0 <= j < n ==> a[j] == b[j],
    ensures
        piles_idents(a, n) == piles_idents(b, n),
    decreases n,
{
    if n > 0 {
        lemma_piles_ids_same(a, b, n - 1);
    }
}

/// Every legal move keeps the same cards on the table: it only moves them
/// between piles and turns them over, so the multiset of (id, suit, rank)
/// over tableau, foundations, stock and waste is unchanged, and so is the
/// draw mode.
pub proof fn lemma_moves_conserve_cards(v: SolverView, mv: SolverMove)
    requires
        is_legal_move(v, mv),
    ensures
        position_idents(apply_move_view(v, mv)) =~= position_idents(v),
        apply_move_view(v, mv).draw_mode == v.draw_mode,
{
    broadcast use vstd::multiset::group_multiset_axioms;

    let w = apply_move_view(v, mv);
    match mv {
        SolverMove::TableauToTableau { from, to, count } => {
            let col = v.tableau[from as int];
            let start = col.len() - count;
            let lower = col.subrange(0, start);
            let run = col.subrange(start, col.len() as int);
            let t1 = v.tableau.update(from as int, lower);
            let t2 = t1.update(to as int, t1[to as int] + run);
            let t3 = t2.update(from as int, flip_top(t2[from as int]));
            let p0 = piles_idents(v.tableau, 7);
            let p1 = piles_idents(t1, 7);
            let p2 = piles_idents(t2, 7);
            let p3 = piles_idents(t3, 7);
            lemma_card_ids_split(col, start);
            lemma_piles_ids_update(v.tableau, 7, from as int, lower);
            assert(p1.add(card_idents(run)).add(card_idents(lower)) =~= p1.add(card_idents(col)));
            lemma_idents_cancel(p1.add(card_idents(run)), p0, card_idents(lower));
            lemma_card_ids_concat(t1[to as int], run);
            lemma_piles_ids_update(t1, 7, to as int, t1[to as int] + run);
            assert(p2.add(card_idents(t1[to as int])) =~= p1.add(card_idents(run)).add(card_idents(t1[to as int])));
            lemma_idents_cancel(p2, p1.add(card_idents(run)), card_idents(t1[to as int]));
            lemma_card_ids_flip_top(t2[from as int]);
            lemma_piles_ids_update(t2, 7, from as int, flip_top(t2[from as int]));
            lemma_idents_cancel(p3, p2, card_idents(t2[from as int]));
            assert(w.tableau == t3);
            assert(piles_idents(w.tableau, 7) == piles_idents(v.tableau, 7));
            assert(w.foundation == v.foundation && w.stock == v.stock && w.waste == v.waste);
            assert(position_idents(w) == position_idents(v));
        },
        SolverMove::TableauToFoundation { from, slot } => {
            let col = v.tableau[from as int];
            let rest = col.drop_last();
            lemma_card_ids_split(col, col.len() - 1);
            assert(col.subrange(0, col.len() - 1) =~= rest);
            assert(col.subrange(col.len() - 1, col.len() as int) =~= seq![col.last()]);
            lemma_card_ids_flip_top(rest);
            lemma_piles_ids_update(v.tableau, 7, from as int, flip_top(rest));
            let f = v.foundation[slot as int];
            assert(f.push(col.last()) =~= f + seq![col.last()]);
            lemma_card_ids_concat(f, seq![col.last()]);
            lemma_piles_ids_update(v.foundation, 4, slot as int, f.push(col.last()));
            let p0 = piles_idents(v.tableau, 7);
            let p1 = piles_idents(w.tableau, 7);
            let q0 = piles_idents(v.foundation, 4);
            let q1 = piles_idents(w.foundation, 4);
            let x = card_idents(seq![col.last()]);
            assert(p0.add(card_idents(rest)) =~= p1.add(x).add(card_idents(rest)));
            lemma_idents_cancel(p0, p1.add(x), card_idents(rest));
            assert(q0.add(x).add(card_idents(f)) =~= q0.add(card_idents(f.push(col.last()))));
            lemma_idents_cancel(q1, q0.add(x), card_idents(f));
            assert(position_idents(w) =~= position_idents(v));
        },
        SolverMove::WasteToTableau { to } => {
            let ws = v.waste;
            lemma_card_ids_split(ws, ws.len() - 1);
            assert(ws.subrange(0, ws.len() - 1) =~= ws.drop_last());
            assert(ws.subrange(ws.len() - 1, ws.len() as int) =~= seq![ws.last()]);
            let c = v.tableau[to as int];
            assert(c.push(ws.last()) =~= c + seq![ws.last()]);
            lemma_card_ids_concat(c, seq![ws.last()]);
            lemma_piles_ids_update(v.tableau, 7, to as int, c.push(ws.last()));
            let p0 = piles_idents(v.tableau, 7);
            let p1 = piles_idents(w.tableau, 7);
            let x = card_idents(seq![ws.last()]);
            assert(p0.add(x).add(card_idents(c)) =~= p0.add(card_idents(c.push(ws.last()))));
            lemma_idents_cancel(p1, p0.add(x), card_idents(c));
            assert(position_idents(w) =~= position_idents(v));
        },
        SolverMove::WasteToFoundation { slot } => {
            let ws = v.waste;
            lemma_card_ids_split(ws, ws.len() - 1);
            assert(ws.subrange(0, ws.len() - 1) =~= ws.drop_last());
            assert(ws.subrange(ws.len() - 1, ws.len() as int) =~= seq![ws.last()]);
            let f = v.foundation[slot as int];
            assert(f.push(ws.last()) =~= f + seq![ws.last()]);
            lemma_card_ids_concat(f, seq![ws.last()]);
            lemma_piles_ids_update(v.foundation, 4, slot as int, f.push(ws.last()));
            let q0 = piles_idents(v.foundation, 4);
            let q1 = piles_idents(w.foundation, 4);
            let x = card_idents(seq![ws.last()]);
            assert(q0.add(x).add(card_idents(f)) =~= q0.add(card_idents(f.push(ws.last()))));
            lemma_idents_cancel(q1, q0.add(x), card_idents(f));
            assert(position_idents(w) =~= position_idents(v));
        },
        SolverMove::Draw => {
            if v.stock.len() == 0 {
                lemma_card_ids_reverse(v.waste);
                lemma_card_ids_faces(v.stock, Seq::<Card>::empty());
                assert(position_idents(w) =~= position_idents(v));
            } else {
                let avail = if v.stock.len() < draw_count(v.draw_mode) {
                    v.stock.len() as int
                } else {
                    draw_count(v.draw_mode) as int
                };
                let start = v.stock.len() - avail;
                let drawn = v.stock.subrange(start, v.stock.len() as int);
                lemma_card_ids_split(v.stock, start);
                lemma_card_ids_faces(all_face_up(drawn), drawn);
                lemma_card_ids_concat(v.waste, all_face_up(drawn));
                assert(position_idents(w) =~= position_idents(v));
            }
        },
    }
}

// ---------------------------------------------------------------------------
// Recycling the waste
// ---------------------------------------------------------------------------

/// Playing `a` and then `b` is playing `a + b`.
pub proof fn lemma_play_line_split(v: SolverView, a: Seq<SolverMove>, b: Seq<SolverMove>)
    ensures
        play_line(v, a + b) == play_line(play_line(v, a), b),
    decreases b.len(),
{
    if b.len() == 0 {
        assert(a + b =~= a);
    } else {
        lemma_play_line_split(v, a, b.drop_last());
        assert((a + b).drop_last() =~= a + b.drop_last());
        assert((a + b).last() == b.last());
    }
}

/// `n` draw moves in a row.
pub open spec fn draws(n: nat) -> Seq<SolverMove> {
    Seq::new(n, |i: int| SolverMove::Draw)
}

proof fn lemma_redraw_step(v: SolverView, j: nat)
    requires
        v.draw_mode == DrawMode::DrawOne,
        v.stock.len() == 0,
        j <= v.waste.len(),
        forall|i: int| 0 <= i < v.waste.len() ==> (#[trigger] v.waste[i]).face_up,
    ensures
        play_line(v, draws(j + 1)).draw_mode == DrawMode::DrawOne,
        play_line(v, draws(j + 1)).stock =~= recycled(v.waste).subrange(
            0,
            v.waste.len() - j,
        ),
        play_line(v, draws(j + 1)).waste =~= v.waste.subrange(0, j as int),
    decreases j,
{
    let w = v.waste;
    let k = w.len();
    let r = recycled(w);
    assert(draws(j + 1).drop_last() =~= draws(j));
    assert(draws(j + 1).last() == SolverMove::Draw);
    if j == 0 {
        assert(play_line(v, draws(0)) == v);
    } else {
        let jm: nat = (j - 1) as nat;
        lemma_redraw_step(v, jm);
        assert(draws(j).drop_last() =~= draws(jm));
        let s = play_line(v, draws(j));
        assert(s.stock =~= r.subrange(0, k - jm));
        assert(s.waste =~= w.subrange(0, jm as int));
        let start = s.stock.len() - 1;
        assert(start == k - j);
        let drawn = s.stock.subrange(start, s.stock.len() as int);
        assert(drawn =~= seq![r[k - j]]);
        assert(r[k - j] == Card { face_up: false, ..w[jm as int] });
        assert(w[jm as int].face_up);
        assert(all_face_up(drawn) =~= seq![w[jm as int]]);
        assert(w.subrange(0, jm as int) + seq![w[jm as int]] =~= w.subrange(0, j as int));
        assert(s.stock.subrange(0, start) =~= r.subrange(0, k - j));
    }
}

/// In draw-one mode, with the stock empty and the waste face up, a draw
/// recycles the waste into the stock (reversed, face down) and leaves the
/// waste empty; drawing once more for each recycled card then empties the
/// stock and gives back the waste exactly as it was.
pub proof fn lemma_recycle_then_redraw_restores_waste(v: SolverView)
    requires
        v.draw_mode == DrawMode::DrawOne,
        v.stock.len() == 0,
        forall|i: int| 0 <= i < v.waste.len() ==> (#[trigger] v.waste[i]).face_up,
    ensures
        apply_move_view(v, SolverMove::Draw).stock == recycled(v.waste),
        apply_move_view(v, SolverMove::Draw).waste.len() == 0,
        play_line(apply_move_view(v, SolverMove::Draw), draws(v.waste.len())).stock.len() == 0,
        play_line(apply_move_view(v, SolverMove::Draw), draws(v.waste.len())).waste == v.waste,
{
    let k = v.waste.len();
    let r = apply_move_view(v, SolverMove::Draw);
    lemma_redraw_step(v, k);
    lemma_play_line_split(v, seq![SolverMove::Draw], draws(k));
    assert(seq![SolverMove::Draw] + draws(k) =~= draws(k + 1));
    assert(play_line(v, seq![SolverMove::Draw]) == r) by {
        let one = seq![SolverMove::Draw];
        assert(one.drop_last() =~= Seq::<SolverMove>::empty());
        assert(play_line(v, one.drop_last()) == v);
        assert(one.last() == SolverMove::Draw);
    }
    assert(v.waste.subrange(0, k as int) =~= v.waste);
}

// ---------------------------------------------------------------------------
// Candidate moves, in the order the search tries them
// ---------------------------------------------------------------------------

/// The foundation move offered for the top of tableau column `i`, if any.
pub open spec fn tableau_foundation_move(v: SolverView, i: int) -> Seq<SolverMove> {
    let col = v.tableau[i];
    if col.len() > 0 && col.last().face_up {
        match target_slot(v.foundation, col.last().suit) {
            Some(slot) => if foundation_accepts(col.last(), v.foundation[slot as int]) {
                seq![SolverMove::TableauToFoundation { from: i as usize, slot }]
            } else {
                Seq::empty()
            },
            None => Seq::empty(),
        }
    } else {
        Seq::empty()
    }
}

/// Foundation moves from tableau columns `0..n`, in column order.
pub open spec fn tableau_foundation_moves(v: SolverView, n: int) -> Seq<SolverMove>
    decreases n,
{
    if n <= 0 {
        Seq::empty()
    } else {
        tableau_foundation_moves(v, n - 1) + tableau_foundation_move(v, n - 1)
    }
}

/// The foundation move offered for the top of the waste, if any.
pub open spec fn waste_foundation_moves(v: SolverView) -> Seq<SolverMove> {
    if v.waste.len() > 0 {
        match target_slot(v.foundation, v.waste.last().suit) {
            Some(slot) => if foundation_accepts(v.waste.last(), v.foundation[slot as int]) {
                seq![SolverMove::WasteToFoundation { slot }]
            } else {
                Seq::empty()
            },
            None => Seq::empty(),
        }
    } else {
        Seq::empty()
    }
}

/// Whether moving the top `count` cards of `src` onto `dst` would put back
/// the cards the previous move brought from `dst` to `src`.
pub open spec fn undoes_last_move(v: SolverView, src: int, count: int, dst: int) -> bool {
    v.last_move == Some(
        SolverMove::TableauToTableau { from: dst as usize, to: src as usize, count: count as usize },
    )
}

/// The move of the top `count` cards of column `src` onto column `dst`, if
/// the rules accept it, it does not immediately undo the previous move, and
/// it is not the pointless move of a King that fills its whole column onto
/// an empty column.
pub open spec fn tableau_move_to(v: SolverView, src: int, count: int, dst: int) -> Seq<
    SolverMove,
> {
    let col = v.tableau[src];
    let start = col.len() - count;
    let bottom = col[start];
    if dst != src && tableau_accepts(bottom, v.tableau[dst]) && !(start == 0
        && v.tableau[dst].len() == 0 && bottom.rank == Rank::King) && !undoes_last_move(
        v,
        src,
        count,
        dst,
    ) {
        seq![
            SolverMove::TableauToTableau {
                from: src as usize,
                to: dst as usize,
                count: count as usize,
            },
        ]
    } else {
        Seq::empty()
    }
}

/// Moves of the top `count` cards of `src` onto columns `0..d`.
pub open spec fn tableau_moves_to(v: SolverView, src: int, count: int, d: int) -> Seq<SolverMove>
    decreases d,
{
    if d <= 0 {
        Seq::empty()
    } else {
        tableau_moves_to(v, src, count, d - 1) + tableau_move_to(v, src, count, d - 1)
    }
}

/// Moves out of column `src` of runs of `1..=c` cards.
pub open spec fn tableau_moves_of_runs(v: SolverView, src: int, c: int) -> Seq<SolverMove>
    decreases c,
{
    if c <= 0 {
        Seq::empty()
    } else {
        tableau_moves_of_runs(v, src, c - 1) + tableau_moves_to(v, src, c, 7)
    }
}

/// Every tableau-to-tableau move out of column `src`.
pub open spec fn tableau_moves_from(v: SolverView, src: int) -> Seq<SolverMove> {
    if v.tableau[src].len() == 0 {
        Seq::empty()
    } else {
        tableau_moves_of_runs(v, src, face_up_run(v.tableau[src]) as int)
    }
}

/// Tableau-to-tableau moves out of columns `0..n`.
pub open spec fn tableau_tableau_moves(v: SolverView, n: int) -> Seq<SolverMove>
    decreases n,
{
    if n <= 0 {
        Seq::empty()
    } else {
        tableau_tableau_moves(v, n - 1) + tableau_moves_from(v, n - 1)
    }
}

/// The move of the waste top onto column `dst`, if accepted.
pub open spec fn waste_tableau_move(v: SolverView, dst: int) -> Seq<SolverMove> {
    if tableau_accepts(v.waste.last(), v.tableau[dst]) {
        seq![SolverMove::WasteToTableau { to: dst as usize }]
    } else {
        Seq::empty()
    }
}

/// Moves of the waste top onto columns `0..d`.
pub open spec fn waste_tableau_moves(v: SolverView, d: int) -> Seq<SolverMove>
    decreases d,
{
    if d <= 0 || v.waste.len() == 0 {
        Seq::empty()
    } else {
        waste_tableau_moves(v, d - 1) + waste_tableau_move(v, d - 1)
    }
}

/// The draw move, offered when there is something to draw or recycle and
/// the draws since the last other move have not already gone round the
/// whole stock and waste.
pub open spec fn draw_moves(v: SolverView) -> Seq<SolverMove> {
    let can_draw = v.stock.len() > 0 || v.waste.len() > 0;
    let cycle_len = (v.stock.len() + v.waste.len()) as u32;
    let cap: int = if cycle_len == u32::MAX {
        cycle_len as int
    } else {
        cycle_len + 1
    };
    if can_draw && v.consecutive_draws <= cap {
        seq![SolverMove::Draw]
    } else {
        Seq::empty()
    }
}

/// All candidate moves in priority order: tableau-to-foundation,
/// waste-to-foundation, tableau-to-tableau, waste-to-tableau, draw.
pub open spec fn candidate_moves(v: SolverView) -> Seq<SolverMove> {
    tableau_foundation_moves(v, 7) + waste_foundation_moves(v) + tableau_tableau_moves(v, 7)
        + waste_tableau_moves(v, 7) + draw_moves(v)
}

/// Every move of `moves` is legal in `v`.
pub open spec fn all_legal(v: SolverView, moves: Seq<SolverMove>) -> bool {
    forall|j: int| 0 <= j < moves.len() ==> is_legal_move(v, #[trigger] moves[j])
}

proof fn lemma_all_legal_concat(v: SolverView, a: Seq<SolverMove>, b: Seq<SolverMove>)
    requires
        all_legal(v, a),
        all_legal(v, b),
    ensures
        all_legal(v, a + b),
{
    assert forall|j: int| 0 <= j < (a + b).len() implies is_legal_move(v, #[trigger] (a + b)[j]) by {
        if j < a.len() {
            assert((a + b)[j] == a[j]);
        } else {
            assert((a + b)[j] == b[j - a.len()]);
        }
    }
}

proof fn lemma_first_claimed_bound(f: Seq<Seq<Card>>, suit: Suit, i: int)
    ensures
        first_claimed_slot(f, suit, i) matches Some(s) ==> s < 4,
    decreases 4 - i,
{
    if 0 <= i < 4 {
        lemma_first_claimed_bound(f, suit, i + 1);
    }
}

proof fn lemma_first_empty_bound(f: Seq<Seq<Card>>, i: int)
    ensures
        first_empty_slot(f, i) matches Some(s) ==> s < 4,
    decreases 4 - i,
{
    if 0 <= i < 4 {
        lemma_first_empty_bound(f, i + 1);
    }
}

/// A target slot is one of the four foundation slots.
pub proof fn lemma_target_slot_bound(f: Seq<Seq<Card>>, suit: Suit)
    ensures
        target_slot(f, suit) matches Some(s) ==> s < 4,
{
    lemma_first_claimed_bound(f, suit, 0);
    lemma_first_empty_bound(f, 0);
}

proof fn lemma_tableau_foundation_legal(v: SolverView, n: int)
    requires
        view_wf(v),
        n <= 7,
    ensures
        all_legal(v, tableau_foundation_moves(v, n)),
    decreases n,
{
    if n > 0 {
        lemma_tableau_foundation_legal(v, n - 1);
        let col = v.tableau[n - 1];
        if col.len() > 0 {
            lemma_target_slot_bound(v.foundation, col.last().suit);
        }
        lemma_all_legal_concat(v, tableau_foundation_moves(v, n - 1), tableau_foundation_move(v, n - 1));
    }
}

proof fn lemma_tableau_moves_to_legal(v: SolverView, src: int, count: int, d: int)
    requires
        view_wf(v),
        0 <= src < 7,
        1 <= count <= face_up_run(v.tableau[src]),
        d <= 7,
    ensures
        all_legal(v, tableau_moves_to(v, src, count, d)),
    decreases d,
{
    if d > 0 {
        lemma_tableau_moves_to_legal(v, src, count, d - 1);
        let col = v.tableau[src];
        lemma_face_up_run_is_run(col, count as nat);
        let run = col.subrange(col.len() - count, col.len() as int);
        assert(run[0] == col[col.len() - count]);
        assert forall|k: int| 0 <= k < run.len() implies (#[trigger] run[k]).face_up by {
            assert(run[k] == col[col.len() - count + k]);
        }
        let m = tableau_move_to(v, src, count, d - 1);
        if m.len() > 0 {
            assert(is_legal_move(v, m[0]));
        }
        lemma_all_legal_concat(v, tableau_moves_to(v, src, count, d - 1), tableau_move_to(v, src, count, d - 1));
    }
}

proof fn lemma_tableau_moves_of_runs_legal(v: SolverView, src: int, c: int)
    requires
        view_wf(v),
        0 <= src < 7,
        c <= face_up_run(v.tableau[src]),
    ensures
        all_legal(v, tableau_moves_of_runs(v, src, c)),
    decreases c,
{
    if c > 0 {
        lemma_tableau_moves_of_runs_legal(v, src, c - 1);
        lemma_tableau_moves_to_legal(v, src, c, 7);
        lemma_all_legal_concat(v, tableau_moves_of_runs(v, src, c - 1), tableau_moves_to(v, src, c, 7));
    }
}

proof fn lemma_tableau_tableau_legal(v: SolverView, n: int)
    requires
        view_wf(v),
        n <= 7,
    ensures
        all_legal(v, tableau_tableau_moves(v, n)),
    decreases n,
{
    if n > 0 {
        lemma_tableau_tableau_legal(v, n - 1);
        if v.tableau[n - 1].len() > 0 {
            lemma_tableau_moves_of_runs_legal(v, n - 1, face_up_run(v.tableau[n - 1]) as int);
        }
        lemma_all_legal_concat(v, tableau_tableau_moves(v, n - 1), tableau_moves_from(v, n - 1));
    }
}

proof fn lemma_waste_tableau_legal(v: SolverView, d: int)
    requires
        view_wf(v),
        d <= 7,
    ensures
        all_legal(v, waste_tableau_moves(v, d)),
    decreases d,
{
    if d > 0 && v.waste.len() > 0 {
        lemma_waste_tableau_legal(v, d - 1);
        lemma_all_legal_concat(v, waste_tableau_moves(v, d - 1), waste_tableau_move(v, d - 1));
    }
}

/// Every candidate move the solver considers is a legal Klondike move.
pub proof fn lemma_candidates_are_legal(v: SolverView)
    requires
        view_wf(v),
    ensures
        all_legal(v, candidate_moves(v)),
{
    lemma_tableau_foundation_legal(v, 7);
    if v.waste.len() > 0 {
        lemma_target_slot_bound(v.foundation, v.waste.last().suit);
    }
    lemma_tableau_tableau_legal(v, 7);
    lemma_waste_tableau_legal(v, 7);
    let a = tableau_foundation_moves(v, 7);
    let b = waste_foundation_moves(v);
    let c = tableau_tableau_moves(v, 7);
    let d = waste_tableau_moves(v, 7);
    let e = draw_moves(v);
    lemma_all_legal_concat(v, a, b);
    lemma_all_legal_concat(v, a + b, c);
    lemma_all_legal_concat(v, a + b + c, d);
    lemma_all_legal_concat(v, a + b + c + d, e);
}

proof fn lemma_concat_contains<A>(a: Seq<A>, b: Seq<A>, x: A)
    ensures
        a.contains(x) ==> (a + b).contains(x),
        b.contains(x) ==> (a + b).contains(x),
{
    if a.contains(x) {
        let i = choose|i: int| 0 <= i < a.len() && a[i] == x;
        assert((a + b)[i] == x);
    }
    if b.contains(x) {
        let i = choose|i: int| 0 <= i < b.len() && b[i] == x;
        assert((a + b)[a.len() + i] == x);
    }
}

/// The top `count` cards of `cards` are face up and each stacks on the one
/// below it, so the face-up run on top is at least `count` long.
proof fn lemma_face_up_run_at_least(cards: Seq<Card>, count: int)
    requires
        0 <= count <= cards.len(),
        forall|k: int| cards.len() - count <= k < cards.len() ==> (#[trigger] cards[k]).face_up,
        forall|k: int|
            cards.len() - count <= k < cards.len() - 1 ==> #[trigger] stacks_on(cards[k + 1], cards[k]),
    ensures
        face_up_run(cards) >= count,
    decreases cards.len(),
{
    if count > 0 {
        let n = cards.len() as int;
        assert(cards.last() == cards[n - 1]);
        if count >= 2 {
            assert(cards[n - 2].face_up);
            let k = n - 2;
            assert(stacks_on(cards[k + 1], cards[k]));
            let d = cards.drop_last();
            assert forall|k: int| d.len() - (count - 1) <= k < d.len() implies (#[trigger] d[k]).face_up by {
                assert(d[k] == cards[k]);
            }
            assert forall|k: int| d.len() - (count - 1) <= k < d.len() - 1 implies #[trigger] stacks_on(
                d[k + 1],
                d[k],
            ) by {
                assert(d[k] == cards[k]);
                assert(d[k + 1] == cards[k + 1]);
                assert(stacks_on(cards[k + 1], cards[k]));
            }
            lemma_face_up_run_at_least(d, count - 1);
        }
    }
}

proof fn lemma_moves_to_contains(v: SolverView, src: int, count: int, d: int, dst: int)
    requires
        0 <= dst < d,
        tableau_move_to(v, src, count, dst).len() > 0,
    ensures
        tableau_moves_to(v, src, count, d).contains(
            SolverMove::TableauToTableau { from: src as usize, to: dst as usize, count: count as usize },
        ),
    decreases d,
{
    let mv = SolverMove::TableauToTableau { from: src as usize, to: dst as usize, count: count as usize };
    let a = tableau_moves_to(v, src, count, d - 1);
    let b = tableau_move_to(v, src, count, d - 1);
    if dst < d - 1 {
        lemma_moves_to_contains(v, src, count, d - 1, dst);
    } else {
        assert(b[0] == mv);
    }
    lemma_concat_contains(a, b, mv);
}

proof fn lemma_runs_contains(v: SolverView, src: int, c: int, count: int, dst: int)
    requires
        1 <= count <= c,
        0 <= dst < 7,
        tableau_move_to(v, src, count, dst).len() > 0,
    ensures
        tableau_moves_of_runs(v, src, c).contains(
            SolverMove::TableauToTableau { from: src as usize, to: dst as usize, count: count as usize },
        ),
    decreases c,
{
    let mv = SolverMove::TableauToTableau { from: src as usize, to: dst as usize, count: count as usize };
    if count < c {
        lemma_runs_contains(v, src, c - 1, count, dst);
    } else {
        lemma_moves_to_contains(v, src, count, 7, dst);
    }
    lemma_concat_contains(tableau_moves_of_runs(v, src, c - 1), tableau_moves_to(v, src, c, 7), mv);
}

proof fn lemma_tableau_tableau_contains(v: SolverView, n: int, src: int, mv: SolverMove)
    requires
        0 <= src < n,
        tableau_moves_from(v, src).contains(mv),
    ensures
        tableau_tableau_moves(v, n).contains(mv),
    decreases n,
{
    if src < n - 1 {
        lemma_tableau_tableau_contains(v, n - 1, src, mv);
    }
    lemma_concat_contains(tableau_tableau_moves(v, n - 1), tableau_moves_from(v, n - 1), mv);
}

/// Foundations as play builds them: each slot holds one suit from the Ace
/// up without gaps, and no two slots hold the same suit.
pub open spec fn foundations_in_order(f: Seq<Seq<Card>>) -> bool {
    &&& f.len() == 4
    &&& forall|i: int, j: int|
        0 <= i < 4 && 0 <= j < f[i].len() ==> (#[trigger] f[i][j]).suit == f[i][0].suit
            && rank_value(f[i][j].rank) == j + 1
    &&& forall|i: int, j: int|
        0 <= i < 4 && 0 <= j < 4 && i != j && f[i].len() > 0 && f[j].len() > 0 ==> #[trigger] f[i][0].suit
            != #[trigger] f[j][0].suit
}

/// No card on the foundations has the suit and rank of `c`.
pub open spec fn not_on_foundations(f: Seq<Seq<Card>>, c: Card) -> bool {
    forall|i: int, j: int|
        0 <= i < 4 && 0 <= j < f[i].len() ==> !((#[trigger] f[i][j]).suit == c.suit && f[i][j].rank
            == c.rank)
}

proof fn lemma_first_claimed_is(f: Seq<Seq<Card>>, suit: Suit, i: int, t: int)
    requires
        0 <= i <= t < 4,
        f[t].len() > 0 && f[t][0].suit == suit,
        forall|k: int| i <= k < t ==> !(f[k].len() > 0 && (#[trigger] f[k][0]).suit == suit),
    ensures
        first_claimed_slot(f, suit, i) == Some(t as u8),
    decreases t - i,
{
    if i < t {
        assert(!(f[i].len() > 0 && f[i][0].suit == suit));
        lemma_first_claimed_is(f, suit, i + 1, t);
    }
}

proof fn lemma_first_claimed_none(f: Seq<Seq<Card>>, suit: Suit, i: int)
    requires
        0 <= i <= 4,
        forall|k: int| i <= k < 4 ==> !(f[k].len() > 0 && (#[trigger] f[k][0]).suit == suit),
    ensures
        first_claimed_slot(f, suit, i) is None,
    decreases 4 - i,
{
    if i < 4 {
        assert(!(f[i].len() > 0 && f[i][0].suit == suit));
        lemma_first_claimed_none(f, suit, i + 1);
    }
}

proof fn lemma_first_empty_found(f: Seq<Seq<Card>>, i: int, s: int)
    requires
        0 <= i <= s < 4,
        f[s].len() == 0,
    ensures
        first_empty_slot(f, i) matches Some(t) && t < 4 && f[t as int].len() == 0,
    decreases s - i,
{
    if i < s && f[i].len() != 0 {
        lemma_first_empty_found(f, i + 1, s);
    }
}

/// With foundations in order, a card that some slot accepts, and that is
/// not already on the foundations, is accepted by the slot the solver
/// picks for its suit.
proof fn lemma_target_slot_accepts(f: Seq<Seq<Card>>, c: Card, s: int)
    requires
        foundations_in_order(f),
        not_on_foundations(f, c),
        0 <= s < 4,
        foundation_accepts(c, f[s]),
    ensures
        target_slot(f, c.suit) matches Some(t) && t < 4 && foundation_accepts(c, f[t as int]),
{
    if f[s].len() > 0 {
        let n = f[s].len() - 1;
        assert(f[s].last() == f[s][n]);
        assert(f[s][n].suit == f[s][0].suit);
        assert forall|k: int| 0 <= k < s implies !(f[k].len() > 0 && (#[trigger] f[k][0]).suit
            == c.suit) by {
            if f[k].len() > 0 {
                assert(f[k][0].suit != f[s][0].suit);
            }
        }
        lemma_first_claimed_is(f, c.suit, 0, s);
    } else {
        assert(c.rank == Rank::Ace);
        assert forall|k: int| 0 <= k < 4 implies !(f[k].len() > 0 && (#[trigger] f[k][0]).suit
            == c.suit) by {
            if f[k].len() > 0 && f[k][0].suit == c.suit {
                assert(rank_value(f[k][0].rank) == 1);
                assert(f[k][0].rank == Rank::Ace);
                assert(!(f[k][0].suit == c.suit && f[k][0].rank == c.rank));
            }
        }
        lemma_first_claimed_none(f, c.suit, 0);
        lemma_first_empty_found(f, 0, s);
    }
}

proof fn lemma_tableau_foundation_contains(v: SolverView, n: int, from: int, mv: SolverMove)
    requires
        0 <= from < n,
        tableau_foundation_move(v, from).contains(mv),
    ensures
        tableau_foundation_moves(v, n).contains(mv),
    decreases n,
{
    if from < n - 1 {
        lemma_tableau_foundation_contains(v, n - 1, from, mv);
    }
    lemma_concat_contains(tableau_foundation_moves(v, n - 1), tableau_foundation_move(v, n - 1), mv);
}

proof fn lemma_in_candidates(v: SolverView, mv: SolverMove)
    requires
        tableau_foundation_moves(v, 7).contains(mv) || waste_foundation_moves(v).contains(mv)
            || tableau_tableau_moves(v, 7).contains(mv) || waste_tableau_moves(v, 7).contains(mv)
            || draw_moves(v).contains(mv),
    ensures
        candidate_moves(v).contains(mv),
{
    let a = tableau_foundation_moves(v, 7);
    let b = waste_foundation_moves(v);
    let t = tableau_tableau_moves(v, 7);
    let w = waste_tableau_moves(v, 7);
    lemma_concat_contains(a, b, mv);
    lemma_concat_contains(a + b, t, mv);
    lemma_concat_contains(a + b + t, w, mv);
    lemma_concat_contains(a + b + t + w, draw_moves(v), mv);
}

/// The search leaves out no foundation move: when the top card of a column,
/// or of the waste, can go to some foundation slot (foundations built in
/// order, the card not already among them), a move of it to a foundation
/// slot that accepts it is among the candidates.
pub proof fn lemma_foundation_moves_are_offered(v: SolverView, mv: SolverMove)
    requires
        is_legal_move(v, mv),
        foundations_in_order(v.foundation),
        mv matches SolverMove::TableauToFoundation { from, slot } ==> not_on_foundations(
            v.foundation,
            v.tableau[from as int].last(),
        ),
        mv matches SolverMove::WasteToFoundation { slot } ==> not_on_foundations(
            v.foundation,
            v.waste.last(),
        ),
    ensures
        mv matches SolverMove::TableauToFoundation { from, slot } ==> exists|t: u8|
            t < 4 && foundation_accepts(v.tableau[from as int].last(), v.foundation[t as int])
                && #[trigger] candidate_moves(v).contains(
                SolverMove::TableauToFoundation { from, slot: t },
            ),
        mv matches SolverMove::WasteToFoundation { slot } ==> exists|t: u8|
            t < 4 && foundation_accepts(v.waste.last(), v.foundation[t as int])
                && #[trigger] candidate_moves(v).contains(SolverMove::WasteToFoundation { slot: t }),
{
    match mv {
        SolverMove::TableauToFoundation { from, slot } => {
            let c = v.tableau[from as int].last();
            lemma_target_slot_accepts(v.foundation, c, slot as int);
            let t = target_slot(v.foundation, c.suit)->0;
            let m = SolverMove::TableauToFoundation { from, slot: t };
            assert(tableau_foundation_move(v, from as int) =~= seq![m]);
            assert(tableau_foundation_move(v, from as int)[0] == m);
            lemma_tableau_foundation_contains(v, 7, from as int, m);
            lemma_in_candidates(v, m);
        },
        SolverMove::WasteToFoundation { slot } => {
            let c = v.waste.last();
            lemma_target_slot_accepts(v.foundation, c, slot as int);
            let t = target_slot(v.foundation, c.suit)->0;
            let m = SolverMove::WasteToFoundation { slot: t };
            assert(waste_foundation_moves(v) =~= seq![m]);
            assert(waste_foundation_moves(v)[0] == m);
            lemma_in_candidates(v, m);
        },
        _ => {},
    }
}

proof fn lemma_waste_tableau_contains(v: SolverView, d: int, to: int)
    requires
        0 <= to < d,
        v.waste.len() > 0,
        tableau_accepts(v.waste.last(), v.tableau[to]),
    ensures
        waste_tableau_moves(v, d).contains(SolverMove::WasteToTableau { to: to as usize }),
    decreases d,
{
    let m = SolverMove::WasteToTableau { to: to as usize };
    if to < d - 1 {
        lemma_waste_tableau_contains(v, d - 1, to);
    } else {
        assert(waste_tableau_move(v, d - 1)[0] == m);
    }
    lemma_concat_contains(waste_tableau_moves(v, d - 1), waste_tableau_move(v, d - 1), m);
}

/// Every legal move of the waste top onto a tableau column is among the
/// candidates, and so is a legal draw while the draws since the last other
/// move have not yet gone round the whole stock and waste.
pub proof fn lemma_waste_and_draw_moves_are_offered(v: SolverView, mv: SolverMove)
    requires
        is_legal_move(v, mv),
        mv is Draw ==> v.consecutive_draws <= v.stock.len() + v.waste.len() < u32::MAX,
        mv is WasteToTableau || mv is Draw,
    ensures
        candidate_moves(v).contains(mv),
{
    match mv {
        SolverMove::WasteToTableau { to } => {
            lemma_waste_tableau_contains(v, 7, to as int);
            lemma_in_candidates(v, mv);
        },
        _ => {
            assert(draw_moves(v)[0] == SolverMove::Draw);
            lemma_in_candidates(v, mv);
        },
    }
}

/// The rank of a move in the order the search tries moves: foundation
/// moves first, then tableau-to-tableau moves, then moves of the waste onto
/// the tableau, then the draw.
pub open spec fn move_priority(mv: SolverMove) -> int {
    match mv {
        SolverMove::TableauToFoundation { .. } => 0,
        SolverMove::WasteToFoundation { .. } => 0,
        SolverMove::TableauToTableau { .. } => 1,
        SolverMove::WasteToTableau { .. } => 2,
        SolverMove::Draw => 3,
    }
}

/// Every move of `moves` has priority `p`.
pub open spec fn all_priority(moves: Seq<SolverMove>, p: int) -> bool {
    forall|i: int| 0 <= i < moves.len() ==> move_priority(#[trigger] moves[i]) == p
}

proof fn lemma_all_priority_concat(a: Seq<SolverMove>, b: Seq<SolverMove>, p: int)
    requires
        all_priority(a, p),
        all_priority(b, p),
    ensures
        all_priority(a + b, p),
{
    assert forall|i: int| 0 <= i < (a + b).len() implies move_priority(#[trigger] (a + b)[i]) == p by {
        if i < a.len() {
            assert((a + b)[i] == a[i]);
        } else {
            assert((a + b)[i] == b[i - a.len()]);
        }
    }
}

proof fn lemma_priority_tableau_foundation(v: SolverView, n: int)
    ensures
        all_priority(tableau_foundation_moves(v, n), 0),
    decreases n,
{
    if n > 0 {
        lemma_priority_tableau_foundation(v, n - 1);
        lemma_all_priority_concat(tableau_foundation_moves(v, n - 1), tableau_foundation_move(v, n - 1), 0);
    }
}

proof fn lemma_priority_moves_to(v: SolverView, src: int, count: int, d: int)
    ensures
        all_priority(tableau_moves_to(v, src, count, d), 1),
    decreases d,
{
    if d > 0 {
        lemma_priority_moves_to(v, src, count, d - 1);
        lemma_all_priority_concat(tableau_moves_to(v, src, count, d - 1), tableau_move_to(v, src, count, d - 1), 1);
    }
}

proof fn lemma_priority_runs(v: SolverView, src: int, c: int)
    ensures
        all_priority(tableau_moves_of_runs(v, src, c), 1),
    decreases c,
{
    if c > 0 {
        lemma_priority_runs(v, src, c - 1);
        lemma_priority_moves_to(v, src, c, 7);
        lemma_all_priority_concat(tableau_moves_of_runs(v, src, c - 1), tableau_moves_to(v, src, c, 7), 1);
    }
}

proof fn lemma_priority_tableau_tableau(v: SolverView, n: int)
    ensures
        all_priority(tableau_tableau_moves(v, n), 1),
    decreases n,
{
    if n > 0 {
        lemma_priority_tableau_tableau(v, n - 1);
        if v.tableau[n - 1].len() > 0 {
            lemma_priority_runs(v, n - 1, face_up_run(v.tableau[n - 1]) as int);
        }
        lemma_all_priority_concat(tableau_tableau_moves(v, n - 1), tableau_moves_from(v, n - 1), 1);
    }
}

proof fn lemma_priority_waste_tableau(v: SolverView, d: int)
    ensures
        all_priority(waste_tableau_moves(v, d), 2),
    decreases d,
{
    if d > 0 && v.waste.len() > 0 {
        lemma_priority_waste_tableau(v, d - 1);
        lemma_all_priority_concat(waste_tableau_moves(v, d - 1), waste_tableau_move(v, d - 1), 2);
    }
}

/// The candidates come in the search's priority order: every foundation
/// move before every tableau-to-tableau move, those before every move of
/// the waste onto the tableau, and the draw last.
pub proof fn lemma_candidates_in_priority_order(v: SolverView)
    ensures
        forall|i: int, j: int|
            0 <= i < j < candidate_moves(v).len() ==> move_priority(#[trigger] candidate_moves(v)[i])
                <= move_priority(#[trigger] candidate_moves(v)[j]),
{
    let a = tableau_foundation_moves(v, 7) + waste_foundation_moves(v);
    let t = tableau_tableau_moves(v, 7);
    let w = waste_tableau_moves(v, 7);
    let d = draw_moves(v);
    lemma_priority_tableau_foundation(v, 7);
    lemma_all_priority_concat(tableau_foundation_moves(v, 7), waste_foundation_moves(v), 0);
    lemma_priority_tableau_tableau(v, 7);
    lemma_priority_waste_tableau(v, 7);
    assert(all_priority(d, 3));
    let c = candidate_moves(v);
    assert(c == a + t + w + d);
    assert forall|i: int| 0 <= i < c.len() implies {
        let p = move_priority(#[trigger] c[i]);
        &&& i < a.len() ==> p == 0
        &&& a.len() <= i < a.len() + t.len() ==> p == 1
        &&& a.len() + t.len() <= i < a.len() + t.len() + w.len() ==> p == 2
        &&& a.len() + t.len() + w.len() <= i ==> p == 3
    } by {
        if i < a.len() {
            assert(c[i] == a[i]);
        } else if i < a.len() + t.len() {
            assert(c[i] == t[i - a.len()]);
        } else if i < a.len() + t.len() + w.len() {
            assert(c[i] == w[i - a.len() - t.len()]);
        } else {
            assert(c[i] == d[i - a.len() - t.len() - w.len()]);
        }
    }
}

/// The search leaves out no useful tableau-to-tableau move: every legal one
/// is among the candidates, unless it moves straight back what the previous
/// move brought over, or carries a whole column onto an empty column (which
/// changes nothing). In particular a King with cards beneath it may move
/// onto an empty column.
pub proof fn lemma_tableau_moves_are_offered(v: SolverView, from: usize, to: usize, count: usize)
    requires
        is_legal_move(v, SolverMove::TableauToTableau { from, to, count }),
        v.last_move != Some(SolverMove::TableauToTableau { from: to, to: from, count }),
        !(count == v.tableau[from as int].len() && v.tableau[to as int].len() == 0),
    ensures
        candidate_moves(v).contains(SolverMove::TableauToTableau { from, to, count }),
{
    let mv = SolverMove::TableauToTableau { from, to, count };
    let src = from as int;
    let col = v.tableau[src];
    let start = col.len() - count;
    let run = col.subrange(start, col.len() as int);
    assert forall|k: int| col.len() - count <= k < col.len() implies (#[trigger] col[k]).face_up by {
        assert(col[k] == run[k - start]);
    }
    assert forall|k: int| col.len() - count <= k < col.len() - 1 implies #[trigger] stacks_on(
        col[k + 1],
        col[k],
    ) by {
        assert(col[k] == run[k - start]);
        assert(col[k + 1] == run[k - start + 1]);
        assert(stacks_on(run[(k - start) + 1], run[k - start]));
    }
    lemma_face_up_run_at_least(col, count as int);
    assert(run[0] == col[start]);
    assert(tableau_move_to(v, src, count as int, to as int) =~= seq![mv]);
    lemma_runs_contains(v, src, face_up_run(col) as int, count as int, to as int);
    lemma_tableau_tableau_contains(v, 7, src, mv);
    let a = tableau_foundation_moves(v, 7) + waste_foundation_moves(v);
    let t = tableau_tableau_moves(v, 7);
    lemma_concat_contains(a, t, mv);
    lemma_concat_contains(a + t, waste_tableau_moves(v, 7), mv);
    lemma_concat_contains(a + t + waste_tableau_moves(v, 7), draw_moves(v), mv);
}

// ---------------------------------------------------------------------------
// Executable state
// ---------------------------------------------------------------------------

/// Length of the longest run of face-up cards at the top of `cards` in which
/// every card stacks (descending rank, alternating colour) on the one below.
/// Zero when the column is empty or its top card is face down.
pub fn longest_face_up_run(cards: &[Card]) -> (k: usize)
    ensures
        k == face_up_run(cards@),
        k <= cards@.len(),
{
    let n = cards.len();
    if n == 0 {
        return 0;
    }
    if !cards[n - 1].face_up {
        return 0;
    }
    let mut k: usize = 1;
    while k < n
        invariant
            n == cards@.len(),
            1 <= k <= n,
            cards@[n - 1].face_up,
            forall|j: int| n - k <= j < n ==> (#[trigger] cards@[j]).face_up,
            forall|j: int|
                n - k <= j < n - 1 ==> #[trigger] stacks_on(cards@[j + 1], cards@[j]),
        ensures
            1 <= k <= n,
            forall|j: int| n - k <= j < n ==> (#[trigger] cards@[j]).face_up,
            forall|j: int|
                n - k <= j < n - 1 ==> #[trigger] stacks_on(cards@[j + 1], cards@[j]),
            k < n ==> !(cards@[n - k - 1].face_up && stacks_on(
                cards@[n - k],
                cards@[n - k - 1],
            )),
        decreases n - k,
    {
        let lower = &cards[n - k - 1];
        let upper = &cards[n - k];
        if !(lower.face_up && upper.suit.is_red() != lower.suit.is_red() && upper.rank.value() + 1
            == lower.rank.value()) {
            break;
        }
        k = k + 1;
    }
    proof {
        lemma_face_up_run_exact(cards@, k as nat);
    }
    k
}

/// `face_up_run` equals `k` when the top `k` cards form a face-up run and
/// the card below them (if any) does not extend it.
proof fn lemma_face_up_run_exact(cards: Seq<Card>, k: nat)
    requires
        1 <= k <= cards.len(),
        forall|j: int| cards.len() - k <= j < cards.len() ==> (#[trigger] cards[j]).face_up,
        forall|j: int|
            cards.len() - k <= j < cards.len() - 1 ==> #[trigger] stacks_on(cards[j + 1], cards[j]),
        k < cards.len() ==> !(cards[cards.len() - k - 1].face_up && stacks_on(
            cards[cards.len() - k],
            cards[cards.len() - k - 1],
        )),
    ensures
        face_up_run(cards) == k,
    decreases k,
{
    let n = cards.len() as int;
    if k == 1 {
        if n >= 2 {
            assert(!(cards[n - 2].face_up && stacks_on(cards[n - 1], cards[n - 2])));
        }
    } else {
        let d = cards.drop_last();
        assert(cards[n - 2].face_up);
        assert(stacks_on(cards[(n - 2) + 1], cards[n - 2]));
        assert forall|j: int| d.len() - (k - 1) <= j < d.len() implies (#[trigger] d[j]).face_up by {
            assert(d[j] == cards[j]);
        }
        assert forall|j: int| d.len() - (k - 1) <= j < d.len() - 1 implies #[trigger] stacks_on(
            d[j + 1],
            d[j],
        ) by {
            assert(d[j] == cards[j] && d[j + 1] == cards[j + 1]);
        }
        lemma_face_up_run_exact(d, (k - 1) as nat);
    }
}

/// The top `face_up_run(cards)` cards are face up and form a tableau run.
pub proof fn lemma_face_up_run_is_run(cards: Seq<Card>, count: nat)
    requires
        count <= face_up_run(cards),
    ensures
        count <= cards.len(),
        forall|j: int| cards.len() - count <= j < cards.len() ==> (#[trigger] cards[j]).face_up,
        is_tableau_run(cards.subrange(cards.len() - count, cards.len() as int)),
    decreases cards.len(),
{
    let n = cards.len() as int;
    let run = cards.subrange(n - count, n);
    if count == 0 {
    } else if count == 1 {
        assert(cards.last().face_up);
    } else {
        let d = cards.drop_last();
        assert(cards.last().face_up);
        assert(cards[n - 2].face_up && stacks_on(cards[n - 1], cards[n - 2]));
        lemma_face_up_run_is_run(d, (count - 1) as nat);
        let drun = d.subrange(d.len() - (count - 1), d.len() as int);
        assert forall|j: int| n - count <= j < n implies (#[trigger] cards[j]).face_up by {
            if j < n - 1 {
                assert(cards[j] == d[j]);
            }
        }
        assert forall|i: int| 0 <= i < run.len() - 1 implies #[trigger] stacks_on(run[i + 1], run[i]) by {
            if i < run.len() - 2 {
                assert(run[i] == drun[i] && run[i + 1] == drun[i + 1]);
            }
        }
    }
}

impl Clone for SolverState {
    fn clone(&self) -> (r: Self)
        ensures
            r@ == self@,
    {
        let r = SolverState {
            tableau: [
                self.tableau[0].clone(),
                self.tableau[1].clone(),
                self.tableau[2].clone(),
                self.tableau[3].clone(),
                self.tableau[4].clone(),
                self.tableau[5].clone(),
                self.tableau[6].clone(),
            ],
            foundation: [
                self.foundation[0].clone(),
                self.foundation[1].clone(),
                self.foundation[2].clone(),
                self.foundation[3].clone(),
            ],
            stock: self.stock.clone(),
            waste: self.waste.clone(),
            draw_mode: self.draw_mode,
            just_drew: self.just_drew,
            consecutive_draws: self.consecutive_draws,
            last_move: self.last_move,
        };
        proof {
            assert forall|i: int| 0 <= i < 7 implies #[trigger] r.tableau[i]@ == self.tableau[i]@ by {
                assert(r.tableau[i]@ =~= self.tableau[i]@);
            }
            assert forall|i: int| 0 <= i < 4 implies #[trigger] r.foundation[i]@
                == self.foundation[i]@ by {
                assert(r.foundation[i]@ =~= self.foundation[i]@);
            }
            assert(r.stock@ =~= self.stock@);
            assert(r.waste@ =~= self.waste@);
            assert(r@.tableau =~= self@.tableau);
            assert(r@.foundation =~= self@.foundation);
        }
        r
    }
}

/// Turns the top card of `col` face up if it is face down.
fn flip_top_in_place(col: &mut Vec<Card>)
    ensures
        final(col)@ == flip_top(old(col)@),
{
    let n = col.len();
    if n > 0 && !col[n - 1].face_up {
        let mut top = col[n - 1];
        top.face_up = true;
        col.set(n - 1, top);
        assert(final(col)@ =~= flip_top(old(col)@)) by {
            assert(final(col)@ =~= flip_top(old(col)@));
        }
    } else if n > 0 {
        assert(old(col)@.last() == Card { face_up: true, ..old(col)@.last() });
        assert(col@ =~= flip_top(old(col)@));
    }
}

/// The model of any executable state is well formed.
pub proof fn lemma_state_view_wf(s: &SolverState)
    ensures
        view_wf(s@),
{
    assert forall|i: int| 0 <= i < 7 implies #[trigger] s@.tableau[i].len() <= usize::MAX by {
        assert(s@.tableau[i] == s.tableau[i]@);
        assert(s.tableau[i].len() == s.tableau[i]@.len());
    }
}

impl SolverState {
    /// True when every foundation slot has 13 cards.
    pub fn is_won(&self) -> (won: bool)
        ensures
            won == is_won_view(self@),
    {
        let mut i: usize = 0;
        while i < 4
            invariant
                i <= 4,
                forall|j: int| 0 <= j < i ==> #[trigger] self.foundation[j]@.len() == 13,
            decreases 4 - i,
        {
            if self.foundation[i].len() != 13 {
                assert(self@.foundation[i as int].len() != 13);
                return false;
            }
            i = i + 1;
        }
        true
    }

    /// The foundation slot that already claims `suit` (its bottom card has
    /// that suit), or else the first empty slot; `None` if neither exists.
    pub fn target_foundation_slot(&self, suit: Suit) -> (slot: Option<u8>)
        ensures
            slot == target_slot(self@.foundation, suit),
            slot matches Some(s) ==> s < 4,
    {
        let ghost f = self@.foundation;
        let mut empty: Option<u8> = None;
        let mut idx: usize = 0;
        while idx < 4
            invariant
                idx <= 4,
                f == self@.foundation,
                first_claimed_slot(f, suit, 0) == first_claimed_slot(f, suit, idx as int),
                empty is None ==> first_empty_slot(f, 0) == first_empty_slot(f, idx as int),
                empty is Some ==> empty == first_empty_slot(f, 0),
                empty matches Some(e) ==> e < 4,
            decreases 4 - idx,
        {
            let pile = &self.foundation[idx];
            if pile.len() > 0 {
                if pile[0].suit == suit {
                    assert(first_claimed_slot(f, suit, idx as int) == Some(idx as u8));
                    return Some(idx as u8);
                }
            } else if empty.is_none() {
                empty = Some(idx as u8);
            }
            idx = idx + 1;
        }
        empty
    }

    /// A pile value holding a copy of `cards`, for use with the rule helpers.
    pub fn pile_view(pile_type: PileType, cards: &[Card]) -> (p: Pile)
        ensures
            p.pile_type == pile_type,
            p.cards@ == cards@,
    {
        let mut v: Vec<Card> = Vec::new();
        let mut i: usize = 0;
        while i < cards.len()
            invariant
                i <= cards@.len(),
                v@ == cards@.subrange(0, i as int),
            decreases cards@.len() - i,
        {
            v.push(cards[i]);
            assert(v@ =~= cards@.subrange(0, i + 1));
            i = i + 1;
        }
        assert(v@ =~= cards@);
        Pile { pile_type, cards: v }
    }

    /// Plays `mv`, returning the search flags as they were before.
    pub fn apply_move(&mut self, mv: SolverMove) -> (undo: SolverStateUndo)
        requires
            move_in_bounds(old(self)@, mv),
        ensures
            final(self)@ == apply_move_view(old(self)@, mv),
            undo.prev_just_drew == old(self).just_drew,
            undo.prev_consec == old(self).consecutive_draws,
    {
        let ghost v = self@;
        let prev_just_drew = self.just_drew;
        let prev_consec = self.consecutive_draws;
        match mv {
            SolverMove::TableauToTableau { from, to, count } => {
                let start = self.tableau[from].len() - count;
                let mut moved: Vec<Card> = self.tableau[from].split_off(start);
                self.tableau[to].append(&mut moved);
                flip_top_in_place(&mut self.tableau[from]);
                self.just_drew = false;
                self.consecutive_draws = 0;
                assert(self@.tableau =~= apply_move_view(v, mv).tableau);
            },
            SolverMove::TableauToFoundation { from, slot } => {
                if let Some(card) = self.tableau[from].pop() {
                    self.foundation[slot as usize].push(card);
                    flip_top_in_place(&mut self.tableau[from]);
                    assert(self@.tableau =~= apply_move_view(v, mv).tableau);
                    assert(self@.foundation =~= apply_move_view(v, mv).foundation);
                }
                self.just_drew = false;
                self.consecutive_draws = 0;
            },
            SolverMove::WasteToTableau { to } => {
                if let Some(card) = self.waste.pop() {
                    self.tableau[to].push(card);
                    assert(self@.tableau =~= apply_move_view(v, mv).tableau);
                }
                self.just_drew = false;
                self.consecutive_draws = 0;
            },
            SolverMove::WasteToFoundation { slot } => {
                if let Some(card) = self.waste.pop() {
                    self.foundation[slot as usize].push(card);
                    assert(self@.foundation =~= apply_move_view(v, mv).foundation);
                }
                self.just_drew = false;
                self.consecutive_draws = 0;
            },
            SolverMove::Draw => {
                if self.stock.len() == 0 {
                    let ghost w = self.waste@;
                    while self.waste.len() > 0
                        invariant
                            self.waste@.len() <= w.len(),
                            self.waste@ == w.subrange(0, self.waste@.len() as int),
                            self.stock@ == recycled(w).subrange(
                                0,
                                w.len() - self.waste@.len(),
                            ),
                            self.tableau == old(self).tableau,
                            self.foundation == old(self).foundation,
                            self.draw_mode == old(self).draw_mode,
                            self.consecutive_draws == old(self).consecutive_draws,
                        decreases self.waste@.len(),
                    {
                        let mut c = self.waste.pop().unwrap();
                        c.face_up = false;
                        self.stock.push(c);
                        assert(self.waste@ =~= w.subrange(0, self.waste@.len() as int));
                        assert(self.stock@ =~= recycled(w).subrange(0, w.len() - self.waste@.len()));
                    }
                    assert(self.stock@ =~= recycled(w));
                } else {
                    let draw_count: usize = match self.draw_mode {
                        DrawMode::DrawOne => 1,
                        DrawMode::DrawThree => 3,
                    };
                    let avail = if self.stock.len() < draw_count {
                        self.stock.len()
                    } else {
                        draw_count
                    };
                    let drain_start = self.stock.len() - avail;
                    let drawn: Vec<Card> = self.stock.split_off(drain_start);
                    let ghost w = self.waste@;
                    let mut i: usize = 0;
                    while i < drawn.len()
                        invariant
                            i <= drawn@.len(),
                            self.waste@ == w + all_face_up(drawn@).subrange(0, i as int),
                            drain_start <= old(self).stock@.len(),
                            self.stock@ == old(self).stock@.subrange(0, drain_start as int),
                            self.tableau == old(self).tableau,
                            self.foundation == old(self).foundation,
                            self.draw_mode == old(self).draw_mode,
                            self.consecutive_draws == old(self).consecutive_draws,
                        decreases drawn@.len() - i,
                    {
                        let mut c = drawn[i];
                        c.face_up = true;
                        self.waste.push(c);
                        assert(self.waste@ =~= w + all_face_up(drawn@).subrange(0, i + 1));
                        i = i + 1;
                    }
                    assert(all_face_up(drawn@).subrange(0, drawn@.len() as int) =~= all_face_up(drawn@));
                }
                self.just_drew = true;
                self.consecutive_draws = self.consecutive_draws.saturating_add(1);
            },
        }
        self.last_move = Some(mv);
        proof {
            let w = apply_move_view(v, mv);
            assert(self@.tableau =~= w.tableau);
            assert(self@.foundation =~= w.foundation);
            assert(self@.stock =~= w.stock);
            assert(self@.waste =~= w.waste);
            assert(self@.consecutive_draws == w.consecutive_draws);
            assert(self@.just_drew == w.just_drew);
        }
        SolverStateUndo { prev_just_drew, prev_consec }
    }
}


impl SolverState {
    /// Every candidate move in priority order: foundation moves from the
    /// tableau, the foundation move from the waste, tableau-to-tableau
    /// moves, waste-to-tableau moves, then the draw.
    pub fn enumerate_moves(&self) -> (moves: Vec<SolverMove>)
        ensures
            moves@ == candidate_moves(self@),
    {
        let ghost v = self@;
        let mut moves: Vec<SolverMove> = Vec::new();

        // 1) Foundation moves from tableau tops.
        let mut i: usize = 0;
        while i < 7
            invariant
                v == self@,
                i <= 7,
                moves@ == tableau_foundation_moves(v, i as int),
            decreases 7 - i,
        {
            let n = self.tableau[i].len();
            if n > 0 {
                let top = self.tableau[i][n - 1];
                if top.face_up {
                    if let Some(slot) = self.target_foundation_slot(top.suit) {
                        let foundation_pile = Self::pile_view(
                            PileType::Foundation(slot),
                            self.foundation[slot as usize].as_slice(),
                        );
                        if can_place_on_foundation(&top, &foundation_pile) {
                            moves.push(SolverMove::TableauToFoundation { from: i, slot });
                        }
                    }
                }
            }
            assert(moves@ =~= tableau_foundation_moves(v, i as int + 1));
            i = i + 1;
        }
        let ghost part1 = moves@;

        // 2) Foundation move from the waste top.
        let wn = self.waste.len();
        if wn > 0 {
            let top = self.waste[wn - 1];
            if let Some(slot) = self.target_foundation_slot(top.suit) {
                let foundation_pile = Self::pile_view(
                    PileType::Foundation(slot),
                    self.foundation[slot as usize].as_slice(),
                );
                if can_place_on_foundation(&top, &foundation_pile) {
                    moves.push(SolverMove::WasteToFoundation { slot });
                }
            }
        }
        assert(moves@ =~= part1 + waste_foundation_moves(v));
        let ghost part2 = moves@;

        // 3) Tableau-to-tableau moves.
        let mut src: usize = 0;
        while src < 7
            invariant
                v == self@,
                src <= 7,
                moves@ == part2 + tableau_tableau_moves(v, src as int),
            decreases 7 - src,
        {
            let n = self.tableau[src].len();
            let ghost before = moves@;
            if n > 0 {
                let max_run = longest_face_up_run(self.tableau[src].as_slice());
                let mut done: usize = 0;
                while done < max_run
                    invariant
                        v == self@,
                        src < 7,
                        n == v.tableau[src as int].len(),
                        n > 0,
                        max_run == face_up_run(v.tableau[src as int]),
                        max_run <= n,
                        done <= max_run,
                        moves@ == before + tableau_moves_of_runs(v, src as int, done as int),
                    decreases max_run - done,
                {
                    let count = done + 1;
                    let start = n - count;
                    let bottom = self.tableau[src][start];
                    let ghost before_dst = moves@;
                    let mut dst: usize = 0;
                    while dst < 7
                        invariant
                            v == self@,
                            src < 7,
                            n == v.tableau[src as int].len(),
                            1 <= count <= n,
                            start == n - count,
                            bottom == v.tableau[src as int][start as int],
                            dst <= 7,
                            moves@ == before_dst + tableau_moves_to(v, src as int, count as int, dst as int),
                        decreases 7 - dst,
                    {
                        if dst != src {
                            let dst_pile = Self::pile_view(
                                PileType::Tableau(dst),
                                self.tableau[dst].as_slice(),
                            );
                            if can_place_on_tableau(&bottom, &dst_pile) {
                                let leaves_source_empty = start == 0;
                                let dest_empty = self.tableau[dst].len() == 0;
                                let is_king = match bottom.rank {
                                    Rank::King => true,
                                    _ => false,
                                };
                                let undoes = match self.last_move {
                                    Some(
                                        SolverMove::TableauToTableau { from: f, to: t, count: c },
                                    ) => f == dst && t == src && c == count,
                                    _ => false,
                                };
                                if !(leaves_source_empty && dest_empty && is_king) && !undoes {
                                    moves.push(SolverMove::TableauToTableau { from: src, to: dst, count });
                                }
                            }
                        }
                        assert(moves@ =~= before_dst + tableau_moves_to(v, src as int, count as int, dst as int + 1));
                        dst = dst + 1;
                    }
                    assert(moves@ =~= before + tableau_moves_of_runs(v, src as int, count as int));
                    done = count;
                }
            }
            assert(moves@ =~= part2 + tableau_tableau_moves(v, src as int + 1));
            src = src + 1;
        }
        let ghost part3 = moves@;

        // 4) Waste to tableau.
        if wn > 0 {
            let top = self.waste[wn - 1];
            let mut dst: usize = 0;
            while dst < 7
                invariant
                    v == self@,
                    wn == v.waste.len(),
                    wn > 0,
                    top == v.waste.last(),
                    dst <= 7,
                    moves@ == part3 + waste_tableau_moves(v, dst as int),
                decreases 7 - dst,
            {
                let dst_pile = Self::pile_view(PileType::Tableau(dst), self.tableau[dst].as_slice());
                if can_place_on_tableau(&top, &dst_pile) {
                    moves.push(SolverMove::WasteToTableau { to: dst });
                }
                assert(moves@ =~= part3 + waste_tableau_moves(v, dst as int + 1));
                dst = dst + 1;
            }
        } else {
            assert(waste_tableau_moves(v, 7) =~= Seq::<SolverMove>::empty());
            assert(moves@ =~= part3 + waste_tableau_moves(v, 7));
        }
        let ghost part4 = moves@;

        // 5) Draw, unless the stock and waste have already been cycled
        //    through without any other progress.
        let can_draw = self.stock.len() > 0 || self.waste.len() > 0;
        let stock_cycle_len = #[verifier::truncate] ((self.stock.len() as u128
            + self.waste.len() as u128) as u32);
        let cycled_without_progress = self.consecutive_draws > stock_cycle_len.saturating_add(1);
        if can_draw && !cycled_without_progress {
            moves.push(SolverMove::Draw);
        }
        assert(moves@ =~= part4 + draw_moves(v));
        assert(moves@ =~= candidate_moves(v));
        moves
    }
}


// ---------------------------------------------------------------------------
// Canonical state hash
// ---------------------------------------------------------------------------

/// Little-endian bytes of `x`.
pub open spec fn u32_le(x: u32) -> Seq<u8> {
    seq![
        (x % 256) as u8,
        ((x / 256) % 256) as u8,
        ((x / 65536) % 256) as u8,
        ((x / 16777216) % 256) as u8,
    ]
}

/// One byte per flag: 1 for `true`, 0 for `false`.
pub open spec fn bool_byte(b: bool) -> u8 {
    if b {
        1
    } else {
        0
    }
}

/// Each card's id followed by its face-up flag.
pub open spec fn encode_cards_faced(cards: Seq<Card>) -> Seq<u8>
    decreases cards.len(),
{
    if cards.len() == 0 {
        Seq::empty()
    } else {
        encode_cards_faced(cards.drop_last()) + u32_le(cards.last().id) + seq![
            bool_byte(cards.last().face_up),
        ]
    }
}

/// Each card's id.
pub open spec fn encode_ids(cards: Seq<Card>) -> Seq<u8>
    decreases cards.len(),
{
    if cards.len() == 0 {
        Seq::empty()
    } else {
        encode_ids(cards.drop_last()) + u32_le(cards.last().id)
    }
}

/// Tableau columns `0..n`: each as its length then its cards.
pub open spec fn encode_tableau(t: Seq<Seq<Card>>, n: int) -> Seq<u8>
    decreases n,
{
    if n <= 0 {
        Seq::empty()
    } else {
        encode_tableau(t, n - 1) + u32_le(t[n - 1].len() as u32) + encode_cards_faced(t[n - 1])
    }
}

/// Foundation slots `0..n`: 0 for an empty slot, else 1 and the top card's id.
pub open spec fn encode_foundations(f: Seq<Seq<Card>>, n: int) -> Seq<u8>
    decreases n,
{
    if n <= 0 {
        Seq::empty()
    } else {
        encode_foundations(f, n - 1) + if f[n - 1].len() == 0 {
            seq![0u8]
        } else {
            seq![1u8] + u32_le(f[n - 1].last().id)
        }
    }
}

/// The bytes hashed for a position: a version byte, the tableau with face
/// states, the foundation tops, the stock and waste ids (each preceded by
/// its length) and the draw mode. The search flags are not included.
pub open spec fn encode_position(v: SolverView) -> Seq<u8> {
    seq![0u8] + encode_tableau(v.tableau, 7) + encode_foundations(v.foundation, 4) + u32_le(
        v.stock.len() as u32,
    ) + encode_ids(v.stock) + u32_le(v.waste.len() as u32) + encode_ids(v.waste) + seq![
        match v.draw_mode {
            DrawMode::DrawOne => 1u8,
            DrawMode::DrawThree => 3u8,
        },
    ]
}

/// The canonical hash of a position: std's `DefaultHasher` fed its encoding.
pub open spec fn canonical_hash_of(v: SolverView) -> u64 {
    DefaultHasher::spec_finish(seq![encode_position(v)])
}

/// Positions that differ only in the search flags and the last move hash
/// alike.
pub proof fn lemma_hash_ignores_search_flags(
    v: SolverView,
    just_drew: bool,
    consecutive_draws: u32,
    last_move: Option<SolverMove>,
)
    ensures
        canonical_hash_of(SolverView { just_drew, consecutive_draws, last_move, ..v })
            == canonical_hash_of(v),
{
    assert(encode_position(SolverView { just_drew, consecutive_draws, last_move, ..v })
        == encode_position(v));
}

fn push_u32_le(bytes: &mut Vec<u8>, x: u32)
    ensures
        final(bytes)@ == old(bytes)@ + u32_le(x),
{
    bytes.push((x % 256) as u8);
    bytes.push(((x / 256) % 256) as u8);
    bytes.push(((x / 65536) % 256) as u8);
    bytes.push(((x / 16777216) % 256) as u8);
    assert(final(bytes)@ =~= old(bytes)@ + u32_le(x));
}

fn push_cards(bytes: &mut Vec<u8>, cards: &Vec<Card>, with_face: bool)
    ensures
        with_face ==> final(bytes)@ == old(bytes)@ + encode_cards_faced(cards@),
        !with_face ==> final(bytes)@ == old(bytes)@ + encode_ids(cards@),
{
    let ghost start = bytes@;
    let mut i: usize = 0;
    while i < cards.len()
        invariant
            i <= cards@.len(),
            with_face ==> bytes@ == start + encode_cards_faced(cards@.subrange(0, i as int)),
            !with_face ==> bytes@ == start + encode_ids(cards@.subrange(0, i as int)),
        decreases cards@.len() - i,
    {
        let c = cards[i];
        push_u32_le(bytes, c.id);
        if with_face {
            bytes.push(if c.face_up { 1u8 } else { 0u8 });
        }
        proof {
            let next = cards@.subrange(0, i + 1);
            assert(next.drop_last() =~= cards@.subrange(0, i as int));
            assert(next.last() == c);
            if with_face {
                assert(bytes@ =~= start + encode_cards_faced(next));
            } else {
                assert(bytes@ =~= start + encode_ids(next));
            }
        }
        i = i + 1;
    }
    assert(cards@.subrange(0, cards@.len() as int) =~= cards@);
}

impl SolverState {
    /// Deterministic 64-bit hash of the position (search flags excluded).
    pub fn canonical_hash(&self) -> (h: u64)
        ensures
            h == canonical_hash_of(self@),
    {
        let ghost v = self@;
        let mut bytes: Vec<u8> = Vec::new();
        bytes.push(0u8);
        let mut i: usize = 0;
        while i < 7
            invariant
                v == self@,
                i <= 7,
                bytes@ == seq![0u8] + encode_tableau(v.tableau, i as int),
            decreases 7 - i,
        {
            let col = &self.tableau[i];
            push_u32_le(&mut bytes, #[verifier::truncate] (col.len() as u32));
            push_cards(&mut bytes, col, true);
            assert(bytes@ =~= seq![0u8] + encode_tableau(v.tableau, i as int + 1));
            i = i + 1;
        }
        let ghost after_tableau = bytes@;
        let mut j: usize = 0;
        while j < 4
            invariant
                v == self@,
                j <= 4,
                bytes@ == after_tableau + encode_foundations(v.foundation, j as int),
            decreases 4 - j,
        {
            let f = &self.foundation[j];
            let n = f.len();
            if n == 0 {
                bytes.push(0u8);
            } else {
                bytes.push(1u8);
                push_u32_le(&mut bytes, f[n - 1].id);
            }
            assert(bytes@ =~= after_tableau + encode_foundations(v.foundation, j as int + 1));
            j = j + 1;
        }
        push_u32_le(&mut bytes, #[verifier::truncate] (self.stock.len() as u32));
        push_cards(&mut bytes, &self.stock, false);
        push_u32_le(&mut bytes, #[verifier::truncate] (self.waste.len() as u32));
        push_cards(&mut bytes, &self.waste, false);
        let mode_byte: u8 = match self.draw_mode {
            DrawMode::DrawOne => 1,
            DrawMode::DrawThree => 3,
        };
        bytes.push(mode_byte);
        assert(bytes@ =~= encode_position(v));
        let mut h = DefaultHasher::new();
        h.write(bytes.as_slice());
        assert(h@ =~= seq![encode_position(v)]);
        h.finish()
    }
}


// ---------------------------------------------------------------------------
// Initial position, search and the public entry point
// ---------------------------------------------------------------------------

/// The position dealt from a deck shuffled with `seed`.
pub open spec fn initial_view(seed: u64, draw_mode: DrawMode) -> SolverView {
    let cards = seeded_shuffle(fresh_deck(), seed);
    SolverView {
        tableau: Seq::new(7, |c: int| dealt_column(cards, c)),
        foundation: Seq::new(4, |i: int| Seq::<Card>::empty()),
        stock: dealt_stock(cards),
        waste: Seq::empty(),
        draw_mode,
        just_drew: false,
        consecutive_draws: 0,
        last_move: None,
    }
}

/// A copy of a pile's cards.
fn copy_cards(p: &Pile) -> (v: Vec<Card>)
    ensures
        v@ == p.cards@,
{
    let v = p.cards.clone();
    assert(v@ =~= p.cards@);
    v
}

impl SolverState {
    /// The fresh Klondike deal for `seed`.
    pub fn initial(seed: u64, draw_mode: DrawMode) -> (s: SolverState)
        ensures
            s@ == initial_view(seed, draw_mode),
    {
        let mut deck = Deck::new();
        deck.shuffle(seed);
        proof {
            vstd::seq_lib::to_multiset_len(deck.cards@);
            vstd::seq_lib::to_multiset_len(fresh_deck());
        }
        let (tableau_piles, stock_pile) = deal_klondike(deck);
        let s = SolverState {
            tableau: [
                copy_cards(&tableau_piles[0]),
                copy_cards(&tableau_piles[1]),
                copy_cards(&tableau_piles[2]),
                copy_cards(&tableau_piles[3]),
                copy_cards(&tableau_piles[4]),
                copy_cards(&tableau_piles[5]),
                copy_cards(&tableau_piles[6]),
            ],
            foundation: [Vec::new(), Vec::new(), Vec::new(), Vec::new()],
            stock: stock_pile.cards,
            waste: Vec::new(),
            draw_mode,
            just_drew: false,
            consecutive_draws: 0,
            last_move: None,
        };
        proof {
            let v = initial_view(seed, draw_mode);
            assert(s@.tableau =~= v.tableau);
            assert(s@.foundation =~= v.foundation);
            assert(s@.waste =~= v.waste);
        }
        s
    }
}

/// One level of the search stack in the model: a position and how many of
/// its candidate moves have been tried.
pub struct DfsFrame {
    pub state: SolverView,
    pub next: nat,
}

/// Where a search stops: whether it reached a won position, whether a budget
/// ran out, and the visited hashes and move count it leaves behind.
pub struct SearchEnd {
    pub won: bool,
    pub exceeded: bool,
    pub visited: Set<u64>,
    pub moves: u64,
}

/// The depth-first search from `stack`, step by step as [`SolverState::search`]
/// runs it: stop when the stack is empty or a budget is spent; otherwise try
/// the next candidate move of the top position (popping it when none is
/// left), stop on a won position, skip a position whose hash was visited,
/// and push any other.
#[verifier::opaque]
pub open spec fn dfs(stack: Seq<DfsFrame>, visited: Set<u64>, moves: u64, cfg: SolverConfig) -> SearchEnd
    decreases cfg.move_budget - moves, stack.len(),
{
    if stack.len() == 0 {
        SearchEnd { won: false, exceeded: false, visited, moves }
    } else if moves >= cfg.move_budget || visited.len() >= cfg.state_budget {
        SearchEnd { won: false, exceeded: true, visited, moves }
    } else {
        let top = stack.last();
        let cands = candidate_moves(top.state);
        if top.next >= cands.len() {
            dfs(stack.drop_last(), visited, moves, cfg)
        } else {
            let mv = cands[top.next as int];
            let moves1 = (moves + 1) as u64;
            let stack1 = stack.update(stack.len() - 1, DfsFrame { state: top.state, next: top.next + 1 });
            let nxt = apply_move_view(top.state, mv);
            if is_won_view(nxt) {
                SearchEnd { won: true, exceeded: false, visited, moves: moves1 }
            } else if visited.contains(canonical_hash_of(nxt)) {
                dfs(stack1, visited, moves1, cfg)
            } else {
                dfs(
                    stack1.push(DfsFrame { state: nxt, next: 0 }),
                    visited.insert(canonical_hash_of(nxt)),
                    moves1,
                    cfg,
                )
            }
        }
    }
}

/// [`dfs`] with an empty stack stops without a win.
proof fn lemma_dfs_empty(stack: Seq<DfsFrame>, visited: Set<u64>, moves: u64, cfg: SolverConfig)
    requires
        stack.len() == 0,
    ensures
        dfs(stack, visited, moves, cfg) == (SearchEnd { won: false, exceeded: false, visited, moves }),
{
    reveal(dfs);
}

/// [`dfs`] on a spent budget stops with `exceeded`.
proof fn lemma_dfs_budget(stack: Seq<DfsFrame>, visited: Set<u64>, moves: u64, cfg: SolverConfig)
    requires
        stack.len() > 0,
        moves >= cfg.move_budget || visited.len() >= cfg.state_budget,
    ensures
        dfs(stack, visited, moves, cfg) == (SearchEnd { won: false, exceeded: true, visited, moves }),
{
    reveal(dfs);
}

/// [`dfs`] pops a top position whose candidates are all tried.
proof fn lemma_dfs_pop(stack: Seq<DfsFrame>, visited: Set<u64>, moves: u64, cfg: SolverConfig)
    requires
        stack.len() > 0,
        moves < cfg.move_budget,
        visited.len() < cfg.state_budget,
        stack.last().next >= candidate_moves(stack.last().state).len(),
    ensures
        dfs(stack, visited, moves, cfg) == dfs(stack.drop_last(), visited, moves, cfg),
{
    reveal(dfs);
}

/// [`dfs`] tries the next candidate of the top position.
proof fn lemma_dfs_try(stack: Seq<DfsFrame>, visited: Set<u64>, moves: u64, cfg: SolverConfig)
    requires
        stack.len() > 0,
        moves < cfg.move_budget,
        visited.len() < cfg.state_budget,
        stack.last().next < candidate_moves(stack.last().state).len(),
    ensures
        ({
            let top = stack.last();
            let mv = candidate_moves(top.state)[top.next as int];
            let moves1 = (moves + 1) as u64;
            let stack1 = stack.update(stack.len() - 1, DfsFrame { state: top.state, next: top.next + 1 });
            let nxt = apply_move_view(top.state, mv);
            dfs(stack, visited, moves, cfg) == if is_won_view(nxt) {
                SearchEnd { won: true, exceeded: false, visited, moves: moves1 }
            } else if visited.contains(canonical_hash_of(nxt)) {
                dfs(stack1, visited, moves1, cfg)
            } else {
                dfs(
                    stack1.push(DfsFrame { state: nxt, next: 0 }),
                    visited.insert(canonical_hash_of(nxt)),
                    moves1,
                    cfg,
                )
            }
        }),
{
    reveal(dfs);
}

/// The outcome of [`SolverState::search`] from `root` with `visited` hashes
/// already recorded and `moves` already consumed: a won root wins at once;
/// a spent budget stops it; a root whose hash was visited is not expanded;
/// otherwise its hash is recorded and [`dfs`] runs from it.
pub open spec fn search_end(root: SolverView, visited: Set<u64>, moves: u64, cfg: SolverConfig) -> SearchEnd {
    if is_won_view(root) {
        SearchEnd { won: true, exceeded: false, visited, moves }
    } else if moves >= cfg.move_budget || visited.len() >= cfg.state_budget {
        SearchEnd { won: false, exceeded: true, visited, moves }
    } else if visited.contains(canonical_hash_of(root)) {
        SearchEnd { won: false, exceeded: false, visited, moves }
    } else {
        dfs(
            seq![DfsFrame { state: root, next: 0 }],
            visited.insert(canonical_hash_of(root)),
            moves,
            cfg,
        )
    }
}

/// How a search ends, for any start with a non-empty stack: a spent budget
/// is the only cause of `exceeded`; a search that neither wins nor runs out
/// stopped with both budgets unspent; a win is never also a budget stop;
/// the visited set only grows; and neither the move count nor (for a
/// finite visited set) the number of visited hashes passes its budget
/// unless it started past it.
pub proof fn lemma_dfs_end(stack: Seq<DfsFrame>, visited: Set<u64>, moves: u64, cfg: SolverConfig)
    ensures
        ({
            let e = dfs(stack, visited, moves, cfg);
            &&& e.exceeded ==> !e.won && (e.moves >= cfg.move_budget || e.visited.len()
                >= cfg.state_budget)
            &&& stack.len() > 0 && !e.won && !e.exceeded ==> e.moves < cfg.move_budget
                && e.visited.len() < cfg.state_budget
            &&& visited.subset_of(e.visited)
            &&& moves <= e.moves
            &&& moves <= cfg.move_budget ==> e.moves <= cfg.move_budget
            &&& visited.finite() ==> e.visited.finite()
            &&& visited.finite() && visited.len() <= cfg.state_budget ==> e.visited.len()
                <= cfg.state_budget
        }),
    decreases cfg.move_budget - moves, stack.len(),
{
    reveal(dfs);
    if stack.len() == 0 {
    } else if moves >= cfg.move_budget || visited.len() >= cfg.state_budget {
    } else {
        let top = stack.last();
        let cands = candidate_moves(top.state);
        if top.next >= cands.len() {
            lemma_dfs_end(stack.drop_last(), visited, moves, cfg);
        } else {
            let mv = cands[top.next as int];
            let moves1 = (moves + 1) as u64;
            let stack1 = stack.update(stack.len() - 1, DfsFrame { state: top.state, next: top.next + 1 });
            let nxt = apply_move_view(top.state, mv);
            if is_won_view(nxt) {
            } else if visited.contains(canonical_hash_of(nxt)) {
                lemma_dfs_end(stack1, visited, moves1, cfg);
            } else {
                let v1 = visited.insert(canonical_hash_of(nxt));
                lemma_dfs_end(stack1.push(DfsFrame { state: nxt, next: 0 }), v1, moves1, cfg);
            }
        }
    }
}

/// A search that ends without running out of budget ends the same way
/// under larger budgets: budgets only cut the same search short.
pub proof fn lemma_dfs_budget_monotone(
    stack: Seq<DfsFrame>,
    visited: Set<u64>,
    moves: u64,
    c1: SolverConfig,
    c2: SolverConfig,
)
    requires
        c1.move_budget <= c2.move_budget,
        c1.state_budget <= c2.state_budget,
        !dfs(stack, visited, moves, c1).exceeded,
    ensures
        dfs(stack, visited, moves, c2) == dfs(stack, visited, moves, c1),
    decreases c1.move_budget - moves, stack.len(),
{
    reveal(dfs);
    if stack.len() == 0 {
    } else if moves >= c1.move_budget || visited.len() >= c1.state_budget {
    } else {
        let top = stack.last();
        let cands = candidate_moves(top.state);
        if top.next >= cands.len() {
            lemma_dfs_budget_monotone(stack.drop_last(), visited, moves, c1, c2);
        } else {
            let mv = cands[top.next as int];
            let moves1 = (moves + 1) as u64;
            let stack1 = stack.update(stack.len() - 1, DfsFrame { state: top.state, next: top.next + 1 });
            let nxt = apply_move_view(top.state, mv);
            if is_won_view(nxt) {
            } else if visited.contains(canonical_hash_of(nxt)) {
                lemma_dfs_budget_monotone(stack1, visited, moves1, c1, c2);
            } else {
                let v1 = visited.insert(canonical_hash_of(nxt));
                lemma_dfs_budget_monotone(stack1.push(DfsFrame { state: nxt, next: 0 }), v1, moves1, c1, c2);
            }
        }
    }
}

/// The verdict of [`try_solve`] for a deal: a function of the seed, the draw
/// mode and the budgets alone.
pub open spec fn solve_verdict(seed: u64, draw_mode: DrawMode, cfg: SolverConfig) -> SolverResult {
    let e = search_end(initial_view(seed, draw_mode), Set::empty(), 0, cfg);
    if e.won {
        SolverResult::Winnable
    } else if e.exceeded {
        SolverResult::Inconclusive
    } else {
        SolverResult::Unwinnable
    }
}

/// How [`search_end`] ends: as [`lemma_dfs_end`] says of [`dfs`], and a won
/// root ends the search at once with nothing recorded or consumed.
pub proof fn lemma_search_end(root: SolverView, visited: Set<u64>, moves: u64, cfg: SolverConfig)
    ensures
        ({
            let e = search_end(root, visited, moves, cfg);
            &&& is_won_view(root) ==> e == (SearchEnd { won: true, exceeded: false, visited, moves })
            &&& e.exceeded ==> !e.won && (e.moves >= cfg.move_budget || e.visited.len()
                >= cfg.state_budget)
            &&& !e.won && !e.exceeded ==> e.moves < cfg.move_budget && e.visited.len()
                < cfg.state_budget && e.visited.contains(canonical_hash_of(root))
            &&& visited.subset_of(e.visited)
            &&& moves <= e.moves
            &&& moves <= cfg.move_budget ==> e.moves <= cfg.move_budget
            &&& visited.finite() && visited.len() <= cfg.state_budget ==> e.visited.len()
                <= cfg.state_budget
        }),
{
    if !is_won_view(root) && !(moves >= cfg.move_budget || visited.len() >= cfg.state_budget)
        && !visited.contains(canonical_hash_of(root)) {
        let v1 = visited.insert(canonical_hash_of(root));
        let st = seq![DfsFrame { state: root, next: 0 }];
        lemma_dfs_end(st, v1, moves, cfg);
    }
}

/// A conclusive verdict (`Winnable` or `Unwinnable`) stays the same when
/// both budgets grow.
pub proof fn lemma_conclusive_verdict_stable(
    seed: u64,
    draw_mode: DrawMode,
    c1: SolverConfig,
    c2: SolverConfig,
)
    requires
        c1.move_budget <= c2.move_budget,
        c1.state_budget <= c2.state_budget,
        solve_verdict(seed, draw_mode, c1) != SolverResult::Inconclusive,
    ensures
        solve_verdict(seed, draw_mode, c2) == solve_verdict(seed, draw_mode, c1),
{
    let root = initial_view(seed, draw_mode);
    let v0 = Set::<u64>::empty();
    if !is_won_view(root) {
        assert(!(0 >= c1.move_budget || v0.len() >= c1.state_budget));
        let st = seq![DfsFrame { state: root, next: 0 }];
        let v1 = v0.insert(canonical_hash_of(root));
        assert(!v0.contains(canonical_hash_of(root)));
        assert(search_end(root, v0, 0, c1) == dfs(st, v1, 0, c1));
        assert(search_end(root, v0, 0, c2) == dfs(st, v1, 0, c2));
        lemma_dfs_end(st, v1, 0, c1);
        lemma_dfs_budget_monotone(st, v1, 0, c1, c2);
    }
}

/// The first `n` candidate moves of `u` lead to positions that are not won
/// and whose hashes are in `visited`.
pub open spec fn tried_up_to(u: SolverView, n: int, visited: Set<u64>) -> bool {
    forall|k: int|
        0 <= k < n ==> {
            let nxt = apply_move_view(u, #[trigger] candidate_moves(u)[k]);
            !is_won_view(nxt) && visited.contains(canonical_hash_of(nxt))
        }
}

/// What holds at every step of [`dfs`] of the positions it has expanded
/// (`es`): there are as many as visited hashes, each visited hash is the hash
/// of one of them, none is won, each stack frame holds one of them with the
/// moves before its `next` tried, and each has had all its candidate moves
/// tried or sits on the stack.
spec fn expanded_inv(stack: Seq<DfsFrame>, visited: Set<u64>, es: Set<SolverView>) -> bool {
    &&& es.finite()
    &&& visited.finite()
    &&& es.len() == visited.len()
    &&& forall|i: int|
        0 <= i < stack.len() ==> {
            &&& es.contains(#[trigger] stack[i].state)
            &&& stack[i].next <= candidate_moves(stack[i].state).len()
            &&& tried_up_to(stack[i].state, stack[i].next as int, visited)
        }
    &&& forall|u: SolverView|
        #[trigger] es.contains(u) ==> !is_won_view(u) && visited.contains(canonical_hash_of(u))
    &&& forall|h: u64|
        #[trigger] visited.contains(h) ==> exists|e: SolverView|
            es.contains(e) && canonical_hash_of(e) == h
    &&& forall|u: SolverView|
        #[trigger] es.contains(u) ==> tried_up_to(u, candidate_moves(u).len() as int, visited)
            || exists|i: int| 0 <= i < stack.len() && stack[i].state == u
}

proof fn lemma_tried_grows(u: SolverView, n: int, v0: Set<u64>, v1: Set<u64>)
    requires
        tried_up_to(u, n, v0),
        v0.subset_of(v1),
    ensures
        tried_up_to(u, n, v1),
{
}

/// Runs along [`dfs`] and returns the positions it expanded; when the search
/// ends without a win and within its budgets, every one of them has had all
/// its candidate moves tried.
#[verifier::spinoff_prover]
#[verifier::rlimit(40)]
proof fn lemma_dfs_expanded(
    stack: Seq<DfsFrame>,
    visited: Set<u64>,
    moves: u64,
    cfg: SolverConfig,
    es: Set<SolverView>,
) -> (es2: Set<SolverView>)
    requires
        expanded_inv(stack, visited, es),
    ensures
        ({
            let e = dfs(stack, visited, moves, cfg);
            !e.won && !e.exceeded ==> expanded_inv(Seq::empty(), e.visited, es2) && es.subset_of(
                es2,
            )
        }),
    decreases cfg.move_budget - moves, stack.len(),
{
    reveal(dfs);
    if stack.len() == 0 {
        es
    } else if moves >= cfg.move_budget || visited.len() >= cfg.state_budget {
        es
    } else {
        let top = stack.last();
        let ti = stack.len() - 1;
        let cands = candidate_moves(top.state);
        assert(stack[ti] == top);
        if top.next >= cands.len() {
            let st = stack.drop_last();
            assert forall|u: SolverView| #[trigger] es.contains(u) implies tried_up_to(
                u,
                candidate_moves(u).len() as int,
                visited,
            ) || exists|i: int| 0 <= i < st.len() && st[i].state == u by {
                if !tried_up_to(u, candidate_moves(u).len() as int, visited) {
                    let i = choose|i: int| 0 <= i < stack.len() && stack[i].state == u;
                    if i == ti {
                        assert(stack[i].next <= candidate_moves(stack[i].state).len());
                    } else {
                        assert(st[i] == stack[i]);
                    }
                }
            }
            assert forall|i: int| 0 <= i < st.len() implies {
                &&& es.contains(#[trigger] st[i].state)
                &&& st[i].next <= candidate_moves(st[i].state).len()
                &&& tried_up_to(st[i].state, st[i].next as int, visited)
            } by {
                assert(st[i] == stack[i]);
            }
            lemma_dfs_expanded(st, visited, moves, cfg, es)
        } else {
            let mv = cands[top.next as int];
            let moves1 = (moves + 1) as u64;
            let fr1 = DfsFrame { state: top.state, next: top.next + 1 };
            let stack1 = stack.update(ti, fr1);
            let nxt = apply_move_view(top.state, mv);
            let h = canonical_hash_of(nxt);
            if is_won_view(nxt) {
                es
            } else {
                let v1 = visited.insert(h);
                assert(tried_up_to(top.state, (top.next + 1) as int, v1)) by {
                    lemma_tried_grows(top.state, top.next as int, visited, v1);
                    assert(candidate_moves(top.state)[top.next as int] == mv);
                }
                assert forall|i: int| 0 <= i < stack1.len() implies {
                    &&& es.contains(#[trigger] stack1[i].state)
                    &&& stack1[i].next <= candidate_moves(stack1[i].state).len()
                    &&& tried_up_to(stack1[i].state, stack1[i].next as int, v1)
                } by {
                    if i != ti {
                        assert(stack1[i] == stack[i]);
                        lemma_tried_grows(stack[i].state, stack[i].next as int, visited, v1);
                    }
                }
                assert forall|u: SolverView| #[trigger] es.contains(u) implies tried_up_to(
                    u,
                    candidate_moves(u).len() as int,
                    v1,
                ) || exists|i: int| 0 <= i < stack1.len() && stack1[i].state == u by {
                    if tried_up_to(u, candidate_moves(u).len() as int, visited) {
                        lemma_tried_grows(u, candidate_moves(u).len() as int, visited, v1);
                    } else {
                        let i = choose|i: int| 0 <= i < stack.len() && stack[i].state == u;
                        assert(stack1[i].state == u);
                    }
                }
                if visited.contains(h) {
                    assert(v1 =~= visited);
                    lemma_dfs_expanded(stack1, visited, moves1, cfg, es)
                } else {
                    let es1 = es.insert(nxt);
                    let stack2 = stack1.push(DfsFrame { state: nxt, next: 0 });
                    assert(!es.contains(nxt));
                    assert forall|i: int| 0 <= i < stack2.len() implies {
                        &&& es1.contains(#[trigger] stack2[i].state)
                        &&& stack2[i].next <= candidate_moves(stack2[i].state).len()
                        &&& tried_up_to(stack2[i].state, stack2[i].next as int, v1)
                    } by {
                        if i < stack1.len() {
                            assert(stack2[i] == stack1[i]);
                            assert(es.contains(stack1[i].state));
                        }
                    }
                    assert forall|u: SolverView| #[trigger] es1.contains(u) implies !is_won_view(u)
                        && v1.contains(canonical_hash_of(u)) by {
                        if u != nxt {
                            assert(es.contains(u));
                        }
                    }
                    assert forall|g: u64| #[trigger] v1.contains(g) implies exists|e: SolverView|
                        es1.contains(e) && canonical_hash_of(e) == g by {
                        if g == h {
                            assert(es1.contains(nxt));
                        } else {
                            assert(visited.contains(g));
                            let e = choose|e: SolverView| es.contains(e) && canonical_hash_of(e) == g;
                            assert(es1.contains(e));
                        }
                    }
                    assert forall|u: SolverView| #[trigger] es1.contains(u) implies tried_up_to(
                        u,
                        candidate_moves(u).len() as int,
                        v1,
                    ) || exists|i: int| 0 <= i < stack2.len() && stack2[i].state == u by {
                        if u == nxt {
                            assert(stack2[stack2.len() - 1].state == u);
                        } else {
                            assert(es.contains(u));
                            if !tried_up_to(u, candidate_moves(u).len() as int, v1) {
                                let i = choose|i: int| 0 <= i < stack1.len() && stack1[i].state == u;
                                assert(stack2[i].state == u);
                            }
                        }
                    }
                    let es2 = lemma_dfs_expanded(stack2, v1, moves1, cfg, es1);
                    es2
                }
            }
        }
    }
}

/// A finite family of positions, fewer than `state_budget`, that holds
/// `root`, none of whose members is won, and that is closed under the
/// solver's moves up to the hash: every candidate move from a member leads
/// to a position that is not won and that hashes like some member.
pub open spec fn is_closed_family(es: Set<SolverView>, root: SolverView, state_budget: usize) -> bool {
    &&& es.finite()
    &&& es.len() < state_budget
    &&& es.contains(root)
    &&& forall|u: SolverView| #[trigger] es.contains(u) ==> !is_won_view(u)
    &&& forall|u: SolverView, k: int|
        es.contains(u) && 0 <= k < candidate_moves(u).len() ==> {
            let nxt = apply_move_view(u, #[trigger] candidate_moves(u)[k]);
            &&& !is_won_view(nxt)
            &&& exists|e: SolverView| es.contains(e) && canonical_hash_of(e) == canonical_hash_of(nxt)
        }
}

/// An `Unwinnable` verdict is backed by the positions the search expanded:
/// they form a closed family ([`is_closed_family`]) around the start
/// position, within the state budget.
pub proof fn lemma_unwinnable_is_closed(seed: u64, draw_mode: DrawMode, cfg: SolverConfig) -> (es: Set<
    SolverView,
>)
    requires
        solve_verdict(seed, draw_mode, cfg) == SolverResult::Unwinnable,
    ensures
        is_closed_family(es, initial_view(seed, draw_mode), cfg.state_budget),
{
    let root = initial_view(seed, draw_mode);
    let v0 = Set::<u64>::empty();
    let h = canonical_hash_of(root);
    let st = seq![DfsFrame { state: root, next: 0 }];
    let v1 = v0.insert(h);
    let es0 = Set::<SolverView>::empty().insert(root);
    assert(!is_won_view(root));
    assert(!(0 >= cfg.move_budget || v0.len() >= cfg.state_budget));
    assert(!v0.contains(h));
    assert(search_end(root, v0, 0, cfg) == dfs(st, v1, 0, cfg));
    assert(v1.len() == 1) by {
        assert(v0.len() == 0);
    }
    assert(es0.len() == 1);
    assert(st[0].state == root);
    assert forall|g: u64| #[trigger] v1.contains(g) implies exists|e: SolverView|
        es0.contains(e) && canonical_hash_of(e) == g by {
        assert(es0.contains(root));
    }
    assert(expanded_inv(st, v1, es0));
    let es = lemma_dfs_expanded(st, v1, 0, cfg, es0);
    let e = dfs(st, v1, 0, cfg);
    lemma_dfs_end(st, v1, 0, cfg);
    assert forall|u: SolverView, k: int|
        es.contains(u) && 0 <= k < candidate_moves(u).len() implies {
            let nxt = apply_move_view(u, #[trigger] candidate_moves(u)[k]);
            &&& !is_won_view(nxt)
            &&& exists|x: SolverView| es.contains(x) && canonical_hash_of(x) == canonical_hash_of(nxt)
        } by {
        let nxt = apply_move_view(u, candidate_moves(u)[k]);
        assert(tried_up_to(u, candidate_moves(u).len() as int, e.visited));
        assert(e.visited.contains(canonical_hash_of(nxt)));
    }
    es
}

/// One level of the explicit search stack: a position, its candidate moves,
/// how many of them have been tried, and the line that reached it.
struct Frame {
    state: SolverState,
    pending: Vec<SolverMove>,
    next: usize,
    line: Ghost<Seq<SolverMove>>,
}

/// The model of one executable search frame.
spec fn dfs_frame(fr: Frame) -> DfsFrame {
    DfsFrame { state: fr.state@, next: fr.next as nat }
}

/// The model of an executable search stack.
#[verifier::opaque]
spec fn dfs_stack(stack: Seq<Frame>) -> Seq<DfsFrame> {
    Seq::new(stack.len(), |i: int| dfs_frame(stack[i]))
}

proof fn lemma_dfs_stack_shape(stack: Seq<Frame>)
    ensures
        dfs_stack(stack).len() == stack.len(),
        stack.len() > 0 ==> dfs_stack(stack).last() == dfs_frame(stack.last()),
{
    reveal(dfs_stack);
}

proof fn lemma_dfs_stack_pop(stack: Seq<Frame>)
    requires
        stack.len() > 0,
    ensures
        dfs_stack(stack.drop_last()) == dfs_stack(stack).drop_last(),
{
    reveal(dfs_stack);
    assert(dfs_stack(stack.drop_last()) =~= dfs_stack(stack).drop_last());
}

proof fn lemma_dfs_stack_push(stack: Seq<Frame>, fr: Frame)
    ensures
        dfs_stack(stack.push(fr)) == dfs_stack(stack).push(dfs_frame(fr)),
{
    reveal(dfs_stack);
    assert(dfs_stack(stack.push(fr)) =~= dfs_stack(stack).push(dfs_frame(fr)));
}

proof fn lemma_dfs_stack_update(stack: Seq<Frame>, i: int, fr: Frame)
    requires
        0 <= i < stack.len(),
    ensures
        dfs_stack(stack.update(i, fr)) == dfs_stack(stack).update(i, dfs_frame(fr)),
{
    reveal(dfs_stack);
    assert(dfs_stack(stack.update(i, fr)) =~= dfs_stack(stack).update(i, dfs_frame(fr)));
}

proof fn lemma_dfs_stack_single(fr: Frame)
    ensures
        dfs_stack(seq![fr]) == seq![dfs_frame(fr)],
{
    reveal(dfs_stack);
    assert(dfs_stack(seq![fr]) =~= seq![dfs_frame(fr)]);
}

/// The frame's position is reached from `root` by its legal line, and its
/// pending moves are that position's candidates.
spec fn frame_ok(root: SolverView, fr: Frame) -> bool {
    &&& is_legal_line(root, fr.line@)
    &&& is_candidate_line(root, fr.line@)
    &&& play_line(root, fr.line@) == fr.state@
    &&& fr.pending@ == candidate_moves(fr.state@)
    &&& fr.next <= fr.pending@.len()
}

impl SolverState {
    /// Depth-first search for a win from this position.
    ///
    /// Returns `true` as soon as a won position is reached. Returns `false`
    /// when every candidate has been tried, or (setting
    /// `*budget_exceeded`) when the move or state budget runs out. Every
    /// position entered has its canonical hash added to `visited`; a
    /// position whose hash is already there is not expanded again. Its
    /// outcome, and what it leaves in `visited` and `moves_consumed`, is
    /// [`search_end`] of its inputs.
    #[verifier::rlimit(80)]
    pub fn search(
        self,
        config: &SolverConfig,
        visited: &mut HashSet<u64>,
        moves_consumed: &mut u64,
        budget_exceeded: &mut bool,
    ) -> (won: bool)
        ensures
            won == search_end(self@, old(visited)@, *old(moves_consumed), *config).won,
            final(visited)@ == search_end(self@, old(visited)@, *old(moves_consumed), *config).visited,
            *final(moves_consumed) == search_end(
                self@,
                old(visited)@,
                *old(moves_consumed),
                *config,
            ).moves,
            *final(budget_exceeded) == (*old(budget_exceeded) || search_end(
                self@,
                old(visited)@,
                *old(moves_consumed),
                *config,
            ).exceeded),
            won ==> is_winnable(self@),
            won ==> is_winnable_by_candidates(self@),
            is_won_view(self@) ==> won && final(visited)@ == old(visited)@,
            is_won_view(self@) ==> *final(moves_consumed) == *old(moves_consumed),
            is_won_view(self@) ==> *final(budget_exceeded) == *old(budget_exceeded),
            !won && !*final(budget_exceeded) ==> final(visited)@.contains(canonical_hash_of(self@))
                && *final(moves_consumed) < config.move_budget && final(visited)@.len()
                < config.state_budget,
            *old(moves_consumed) <= config.move_budget ==> *final(moves_consumed)
                <= config.move_budget,
            old(visited)@.finite() && old(visited)@.len() <= config.state_budget
                ==> final(visited)@.len() <= config.state_budget,
            won ==> *final(budget_exceeded) == *old(budget_exceeded),
            *old(budget_exceeded) ==> *final(budget_exceeded),
            *final(budget_exceeded) && !*old(budget_exceeded) ==> !won && (*final(moves_consumed)
                >= config.move_budget || final(visited)@.len() >= config.state_budget),
            !is_won_view(self@) && (*old(moves_consumed) >= config.move_budget || old(
                visited,
            )@.len() >= config.state_budget) ==> !won && *final(budget_exceeded),
            *final(moves_consumed) >= *old(moves_consumed),
            old(visited)@.subset_of(final(visited)@),
    {
        let ghost root = self@;
        let ghost mc0 = *moves_consumed;
        let ghost vis0 = visited@;
        let ghost be0 = *budget_exceeded;
        let ghost goal = search_end(root, vis0, mc0, *config);
        proof {
            lemma_search_end(root, vis0, mc0, *config);
        }
        if self.is_won() {
            proof {
                assert(is_legal_line(root, Seq::<SolverMove>::empty()));
                assert(is_candidate_line(root, Seq::<SolverMove>::empty()));
                assert(is_won_view(play_line(root, Seq::<SolverMove>::empty())));
            }
            return true;
        }
        if *moves_consumed >= config.move_budget || visited.len() >= config.state_budget {
            *budget_exceeded = true;
            return false;
        }
        let root_hash = self.canonical_hash();
        if !visited.insert(root_hash) {
            proof {
                assert(visited@ =~= vis0);
            }
            return false;
        }
        let root_moves = self.enumerate_moves();
        let mut stack: Vec<Frame> = Vec::new();
        stack.push(Frame { state: self, pending: root_moves, next: 0, line: Ghost(Seq::empty()) });
        proof {
            assert(stack@ =~= seq![stack@[0]]);
            lemma_dfs_stack_single(stack@[0]);
        }

        while stack.len() > 0
            invariant
                dfs(dfs_stack(stack@), visited@, *moves_consumed, *config) == goal,
                goal == search_end(root, vis0, mc0, *config),
                forall|i: int| 0 <= i < stack@.len() ==> frame_ok(root, #[trigger] stack@[i]),
                *moves_consumed <= config.move_budget,
                *moves_consumed >= mc0,
                vis0.subset_of(visited@),
                *budget_exceeded == be0,
                mc0 == *old(moves_consumed),
                vis0 == old(visited)@,
                be0 == *old(budget_exceeded),
                !is_won_view(root),
                root == self@,
                mc0 < config.move_budget,
                vis0.len() < config.state_budget,
            decreases config.move_budget - *moves_consumed, stack@.len(),
        {
            if *moves_consumed >= config.move_budget || visited.len() >= config.state_budget {
                proof {
                    lemma_dfs_stack_shape(stack@);
                    lemma_dfs_budget(dfs_stack(stack@), visited@, *moves_consumed, *config);
                    lemma_search_end(root, vis0, mc0, *config);
                }
                *budget_exceeded = true;
                return false;
            }
            let top = stack.len() - 1;
            let next_idx = stack[top].next;
            if next_idx >= stack[top].pending.len() {
                let ghost before = stack@;
                stack.pop();
                proof {
                    assert(frame_ok(root, before[top as int]));
                    lemma_dfs_stack_shape(before);
                    lemma_dfs_pop(dfs_stack(before), visited@, *moves_consumed, *config);
                    lemma_dfs_stack_pop(before);
                    assert(stack@ =~= before.drop_last());
                }
                continue;
            }
            let mv = stack[top].pending[next_idx];
            let ghost fr_state = stack@[top as int].state@;
            let ghost fr_line = stack@[top as int].line@;
            proof {
                assert(frame_ok(root, stack@[top as int]));
                lemma_state_view_wf(&stack@[top as int].state);
                lemma_candidates_are_legal(fr_state);
                assert(is_legal_move(fr_state, mv));
                lemma_line_extend(root, fr_line, mv);
                assert(candidate_moves(fr_state)[next_idx as int] == mv);
                lemma_candidate_line_extend(root, fr_line, mv);
            }
            let ghost before = stack@;
            let ghost vis_before = visited@;
            let ghost mc_before = *moves_consumed;
            proof {
                lemma_dfs_stack_shape(before);
                lemma_dfs_try(dfs_stack(before), visited@, *moves_consumed, *config);
            }
            stack[top].next = next_idx + 1;
            *moves_consumed = moves_consumed.saturating_add(1);
            let mut next = stack[top].state.clone();
            next.apply_move(mv);
            let ghost line = fr_line.push(mv);
            proof {
                lemma_dfs_stack_update(before, top as int, stack@[top as int]);
                assert(stack@ =~= before.update(top as int, stack@[top as int]));
            }
            if next.is_won() {
                proof {
                    assert(is_legal_line(root, line) && is_won_view(play_line(root, line)));
                    assert(is_candidate_line(root, line) && is_won_view(play_line(root, line)));
                    lemma_search_end(root, vis0, mc0, *config);
                }
                return true;
            }
            let h = next.canonical_hash();
            let ghost vis_mid = visited@;
            if !visited.insert(h) {
                proof {
                    assert(visited@ =~= vis_mid);
                }
                continue;
            }
            let next_moves = next.enumerate_moves();
            let ghost mid = stack@;
            stack.push(Frame { state: next, pending: next_moves, next: 0, line: Ghost(line) });
            proof {
                lemma_dfs_stack_push(mid, stack@.last());
                assert(stack@ =~= mid.push(stack@.last()));
            }
        }
        proof {
            lemma_dfs_stack_shape(stack@);
            lemma_dfs_empty(dfs_stack(stack@), visited@, *moves_consumed, *config);
            lemma_search_end(root, vis0, mc0, *config);
        }
        false
    }
}

/// Tries to solve a fresh Classic-mode deal from `seed` and `draw_mode`.
///
/// The verdict is a function of the seed, the draw mode and the budgets
/// ([`solve_verdict`]), so repeated calls agree. `Winnable` is only
/// returned when a line of the solver's candidate moves, all legal, winning
/// the deal was found; `Inconclusive` means a budget ran out first;
/// `Unwinnable` means the search tried every candidate of every position
/// it entered (positions with an already visited hash are not re-entered)
/// within both budgets, so the positions it entered form a closed family
/// around the start ([`is_closed_family`]).
pub fn try_solve(seed: u64, draw_mode: DrawMode, config: &SolverConfig) -> (r: SolverResult)
    ensures
        r == solve_verdict(seed, draw_mode, *config),
        r == SolverResult::Winnable ==> is_winnable(initial_view(seed, draw_mode)),
        r == SolverResult::Winnable ==> is_winnable_by_candidates(initial_view(seed, draw_mode)),
        r == SolverResult::Unwinnable ==> ({
            let e = search_end(initial_view(seed, draw_mode), Set::empty(), 0, *config);
            e.moves < config.move_budget && e.visited.len() < config.state_budget
        }),
        r == SolverResult::Unwinnable ==> exists|es: Set<SolverView>|
            #[trigger] is_closed_family(es, initial_view(seed, draw_mode), config.state_budget),
        r == SolverResult::Inconclusive ==> ({
            let e = search_end(initial_view(seed, draw_mode), Set::empty(), 0, *config);
            e.moves >= config.move_budget || e.visited.len() >= config.state_budget
        }),
        is_won_view(initial_view(seed, draw_mode)) ==> r == SolverResult::Winnable,
        !is_won_view(initial_view(seed, draw_mode)) && (config.move_budget == 0
            || config.state_budget == 0) ==> r == SolverResult::Inconclusive,
{
    let state = SolverState::initial(seed, draw_mode);
    let mut visited: HashSet<u64> = HashSet::new();
    let mut moves_consumed: u64 = 0;
    let mut budget_exceeded = false;
    proof {
        assert(visited@ =~= Set::<u64>::empty());
        lemma_search_end(initial_view(seed, draw_mode), Set::empty(), 0, *config);
    }
    let won = state.search(config, &mut visited, &mut moves_consumed, &mut budget_exceeded);
    if won {
        SolverResult::Winnable
    } else if budget_exceeded {
        SolverResult::Inconclusive
    } else {
        proof {
            let es = lemma_unwinnable_is_closed(seed, draw_mode, *config);
            assert(is_closed_family(es, initial_view(seed, draw_mode), config.state_budget));
        }
        SolverResult::Unwinnable
    }
}

} // verus!
