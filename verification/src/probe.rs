//! The decisions of evaluating one compiled op against a seed.
//!
//! Evaluating an op alternates derivations on a copy of the seed's run
//! (floating-point draws: shop slots, tags, bosses, vouchers, packs and
//! their contents, Soul and Wraith resolutions) with decisions about what
//! they yielded. A probe holds those decisions: it says which derivation it
//! needs next, takes what the derivation gave, and ends with a verdict.
//! An `AnyOf` holds when one of its leaves (its children, nested groups
//! flattened in order) holds; `AnyOfProbe` probes the leaves one after the
//! other, each on a fresh copy of the run, and stops at the first that holds.

use vstd::prelude::*;
use vstd::string::StringSliceAdditionalSpecFns;

use crate::derive::{
    pack_contains_id, spec_matches_shop_slot, spec_matches_standard_card, spec_pack_contains_id,
    matches_shop_slot, matches_standard_card, PackContents, ShopSlot, StandardCard,
};
use crate::filter::{hash16, stable_hash16_u16, Op};

verus! {

/// A derivation a probe asks for, at the op's ante.
#[derive(Clone, Copy, Debug)]
pub enum Derivation {
    /// The next shop slot.
    ShopItem,
    /// The next skip tag.
    Tag,
    /// The boss blind.
    Boss,
    /// The voucher.
    Voucher,
    /// The next shop pack.
    Pack,
    /// The full contents (Standard cards included) of the named pack.
    OpenPackDetailed(&'static str),
    /// The contents of the named pack.
    OpenPack(&'static str),
    /// The legendary joker The Soul gives.
    SoulLegendary,
    /// The rare joker Wraith gives.
    WraithRare,
}

/// What a derivation gave.
#[derive(Debug)]
pub enum Derived {
    Slot(ShopSlot),
    Name(&'static str),
    Contents(PackContents),
}

/// A probe's answer: the derivation it needs next, or its verdict.
#[derive(Clone, Copy, Debug)]
pub enum Probe {
    Need(Derivation),
    Verdict(bool),
}

/// Whether `x` is the kind of thing derivation `d` gives.
pub open spec fn fits(d: Derivation, x: Derived) -> bool {
    match d {
        Derivation::ShopItem => x is Slot,
        Derivation::OpenPackDetailed(_) => x is Contents,
        Derivation::OpenPack(_) => x is Contents,
        _ => x is Name,
    }
}

/// Whether a Standard-pack card list holds a card meeting the clause.
pub open spec fn some_card_matches(
    cards: Seq<StandardCard>,
    base_id: u16,
    enhancement: Option<u16>,
    edition: Option<u8>,
    seal: Option<u8>,
) -> bool {
    exists|i: int|
        0 <= i < cards.len() && spec_matches_standard_card(
            #[trigger] cards[i],
            base_id,
            enhancement,
            edition,
            seal,
        )
}

/// The number of shop slots a joker op draws: 16 for the any-slot sentinel
/// 255, else up to and including the slot.
pub open spec fn slots_scanned(slot: u8) -> nat {
    if slot == 255 {
        16
    } else {
        slot as nat + 1
    }
}

/// The stage of a pack-walking probe.
#[derive(Clone, Copy, Debug, PartialEq, Eq, Structural)]
pub enum Stage {
    /// The next pack is to be drawn.
    DrawPack,
    /// The drawn pack is to be opened.
    Open,
    /// A Soul or Wraith in the pack is to be resolved.
    Resolve,
}

/// Evaluation state of one op other than `AnyOf`.
pub struct OpProbe<'a> {
    op: &'a Op,
    count: u32,
    stage: Stage,
    pack: &'static str,
    verdict: Option<bool>,
    seen: Ghost<Seq<Derived>>,
}

/// The verdict of a joker op after shop slots `seen`: true when some
/// looked-at slot (every slot for the any-slot sentinel, else only the
/// named one) is the joker, false once every slot to scan missed.
pub open spec fn joker_trace_verdict(
    slot: u8,
    joker_id: u16,
    edition: Option<u8>,
    sticker: Option<u8>,
    seen: Seq<Derived>,
) -> Option<bool> {
    if exists|i: int|
        0 <= i < seen.len() && (slot == 255 || i + 1 == slots_scanned(slot)) && (
        #[trigger] seen[i] matches Derived::Slot(s) && spec_matches_shop_slot(
            s,
            joker_id,
            edition,
            sticker,
        )) {
        Some(true)
    } else if seen.len() == slots_scanned(slot) {
        Some(false)
    } else {
        None
    }
}

/// Whether an opened pack meets a two-step pack walk: it holds the card
/// (any-pack ops), or one of its Standard cards meets the clause
/// (Standard-card ops).
pub open spec fn opened_hit(op: Op, x: Derived) -> bool {
    match op {
        Op::AnyPackContains { card_id, .. } => x matches Derived::Contents(c)
            && spec_pack_contains_id(c, card_id),
        Op::StandardCardIs { base_id, enhancement, edition, seal, .. } => x matches Derived::Contents(
            PackContents::StandardCards(cards),
        ) && some_card_matches(cards@, base_id, enhancement, edition, seal),
        _ => false,
    }
}

/// The verdict of a two-step pack walk after results `seen` (pack names and
/// contents, alternately): true when some opened pack meets the op, false
/// once `max_packs` packs were opened without one.
pub open spec fn walk_trace_verdict(op: Op, max_packs: u8, seen: Seq<Derived>) -> Option<bool> {
    if exists|j: int| 0 <= j && 2 * j + 1 < seen.len() && opened_hit(op, #[trigger] seen[2 * j + 1]) {
        Some(true)
    } else if seen.len() == 2 * max_packs {
        Some(false)
    } else {
        None
    }
}

/// The number of packs a pack-walking op looks at, or `None` for other ops.
pub open spec fn packs_walked(op: Op) -> Option<nat> {
    match op {
        Op::AnyPackContains { max_packs, .. } => Some(max_packs as nat),
        Op::SoulIs { max_packs, .. } => Some(max_packs as nat),
        Op::WraithIs { max_packs, .. } => Some(max_packs as nat),
        Op::StandardCardIs { max_packs, .. } => Some(max_packs as nat),
        _ => None,
    }
}

/// The op's ante, as the derivations take it.
pub open spec fn op_ante(op: Op) -> i32 {
    match op {
        Op::HasJoker { ante, .. } => ante as i32,
        Op::TagIs { ante, .. } => ante as i32,
        Op::BossIs { ante, .. } => ante as i32,
        Op::VoucherIs { ante, .. } => ante as i32,
        Op::PackContains { ante, .. } => ante as i32,
        Op::AnyPackContains { ante, .. } => ante as i32,
        Op::SoulIs { ante, .. } => ante as i32,
        Op::WraithIs { ante, .. } => ante as i32,
        Op::StandardCardIs { ante, .. } => ante as i32,
        Op::AnyOf { .. } => 0,
    }
}

/// The verdict after looking at item `count` of `max` (1-based): true on a
/// hit, false once the last one missed, else none yet.
pub open spec fn walk_verdict(count: nat, max: nat, hit: bool) -> Option<bool> {
    if hit {
        Some(true)
    } else if count == max {
        Some(false)
    } else {
        None
    }
}

/// An upper bound on the derivations a probe still needs before its verdict.
pub open spec fn remaining_steps(op: Op, count: nat, stage: Stage) -> int {
    match op {
        Op::PackContains { .. } => if stage == Stage::DrawPack {
            draw_limit(op) - count + 1
        } else {
            1
        },
        Op::AnyPackContains { .. } => 2 * (draw_limit(op) - count) - if stage == Stage::Open {
            1int
        } else {
            0
        },
        Op::StandardCardIs { .. } => 2 * (draw_limit(op) - count) - if stage == Stage::Open {
            1int
        } else {
            0
        },
        Op::SoulIs { .. } => 3 * (draw_limit(op) - count) - if stage == Stage::Open {
            1int
        } else if stage == Stage::Resolve {
            2
        } else {
            0
        },
        Op::WraithIs { .. } => 3 * (draw_limit(op) - count) - if stage == Stage::Open {
            1int
        } else if stage == Stage::Resolve {
            2
        } else {
            0
        },
        _ => draw_limit(op) - count,
    }
}

/// The pack name `x` gives, or `pack` when it gives no name.
pub open spec fn name_or(x: Derived, pack: &'static str) -> &'static str {
    match x {
        Derived::Name(q) => q,
        _ => pack,
    }
}

/// The bound on draws an op's probe stays under while it has no verdict.
pub open spec fn draw_limit(op: Op) -> nat {
    match op {
        Op::HasJoker { slot, .. } => slots_scanned(slot),
        Op::TagIs { position, .. } => position as nat + 1,
        Op::PackContains { pack_index, .. } => pack_index as nat + 1,
        Op::AnyPackContains { max_packs, .. } => max_packs as nat,
        Op::SoulIs { max_packs, .. } => max_packs as nat,
        Op::WraithIs { max_packs, .. } => max_packs as nat,
        Op::StandardCardIs { max_packs, .. } => max_packs as nat,
        _ => 1,
    }
}

/// The state a probe moves to when derivation result `x` arrives: the new
/// count, stage, last pack and verdict.
pub open spec fn spec_feed(
    op: Op,
    count: nat,
    stage: Stage,
    pack: &'static str,
    x: Derived,
) -> (nat, Stage, &'static str, Option<bool>) {
    match op {
        Op::HasJoker { slot, joker_id, edition, sticker, .. } => {
            let n = count + 1;
            let target = slot == 255 || n == slots_scanned(slot);
            let hit = target && (x matches Derived::Slot(s) && spec_matches_shop_slot(
                s,
                joker_id,
                edition,
                sticker,
            ));
            (n, stage, pack, walk_verdict(n, slots_scanned(slot), hit))
        },
        Op::TagIs { position, tag_id, .. } => {
            let n = count + 1;
            (
                n,
                stage,
                pack,
                if n == position as nat + 1 {
                    Some(x matches Derived::Name(t) && hash16(t.spec_bytes()) == tag_id)
                } else {
                    None
                },
            )
        },
        Op::BossIs { boss_id, .. } => (
            count + 1,
            stage,
            pack,
            Some(x matches Derived::Name(b) && hash16(b.spec_bytes()) == boss_id),
        ),
        Op::VoucherIs { voucher_id, .. } => (
            count + 1,
            stage,
            pack,
            Some(x matches Derived::Name(v) && hash16(v.spec_bytes()) == voucher_id),
        ),
        Op::PackContains { pack_index, card_id, .. } => if stage == Stage::DrawPack {
            let n = count + 1;
            let p = name_or(x, pack);
            if n == pack_index as nat + 1 {
                (n, Stage::Open, p, None)
            } else {
                (n, Stage::DrawPack, pack, None)
            }
        } else {
            (
                count,
                stage,
                pack,
                Some(x matches Derived::Contents(c) && spec_pack_contains_id(c, card_id)),
            )
        },
        Op::AnyPackContains { max_packs, card_id, .. } => if stage == Stage::DrawPack {
            (
                count,
                Stage::Open,
                name_or(x, pack),
                None,
            )
        } else {
            let n = count + 1;
            let hit = x matches Derived::Contents(c) && spec_pack_contains_id(c, card_id);
            (n, Stage::DrawPack, pack, walk_verdict(n, max_packs as nat, hit))
        },
        Op::SoulIs { max_packs, joker_id, .. } => spec_resolve_walk(
            count,
            stage,
            pack,
            x,
            max_packs as nat,
            joker_id,
            hash16("The Soul".spec_bytes()),
        ),
        Op::WraithIs { max_packs, joker_id, .. } => spec_resolve_walk(
            count,
            stage,
            pack,
            x,
            max_packs as nat,
            joker_id,
            hash16("Wraith".spec_bytes()),
        ),
        Op::StandardCardIs { max_packs, base_id, enhancement, edition, seal, .. } => if stage
            == Stage::DrawPack {
            (
                count,
                Stage::Open,
                name_or(x, pack),
                None,
            )
        } else {
            let n = count + 1;
            let hit = x matches Derived::Contents(PackContents::StandardCards(cards))
                && some_card_matches(cards@, base_id, enhancement, edition, seal);
            (n, Stage::DrawPack, pack, walk_verdict(n, max_packs as nat, hit))
        },
        Op::AnyOf { .. } => (count, stage, pack, None),
    }
}

/// A Soul or Wraith walk: open each pack; when it holds the card (`card_id`),
/// resolve it and compare the joker it gives with `joker_id`.
pub open spec fn spec_resolve_walk(
    count: nat,
    stage: Stage,
    pack: &'static str,
    x: Derived,
    max: nat,
    joker_id: u16,
    card_id: u16,
) -> (nat, Stage, &'static str, Option<bool>) {
    if stage == Stage::DrawPack {
        (
            count,
            Stage::Open,
            name_or(x, pack),
            None,
        )
    } else if stage == Stage::Open {
        if x matches Derived::Contents(c) && spec_pack_contains_id(c, card_id) {
            (count, Stage::Resolve, pack, None)
        } else {
            let n = count + 1;
            (n, Stage::DrawPack, pack, walk_verdict(n, max, false))
        }
    } else {
        let n = count + 1;
        let hit = x matches Derived::Name(j) && hash16(j.spec_bytes()) == joker_id;
        (n, Stage::DrawPack, pack, walk_verdict(n, max, hit))
    }
}

/// The verdict a probe of `op` starts with: false at once for a walk over
/// no packs, else none yet.
pub open spec fn start_verdict(op: Op) -> Option<bool> {
    if packs_walked(op) == Some(0nat) {
        Some(false)
    } else {
        None
    }
}

/// The count, stage, last pack and verdict a probe of `op` reaches from its
/// start when fed the results `t` in order; results after the verdict change
/// nothing.
pub open spec fn run_state(op: Op, t: Seq<Derived>) -> (nat, Stage, &'static str, Option<bool>)
    decreases t.len(),
{
    if t.len() == 0 {
        (0, Stage::DrawPack, "", start_verdict(op))
    } else {
        let s = run_state(op, t.drop_last());
        if s.3 is Some {
            s
        } else {
            spec_feed(op, s.0, s.1, s.2, t.last())
        }
    }
}

fn any_card_matches(
    cards: &Vec<StandardCard>,
    base_id: u16,
    enhancement: Option<u16>,
    edition: Option<u8>,
    seal: Option<u8>,
) -> (r: bool)
    ensures
        r == some_card_matches(cards@, base_id, enhancement, edition, seal),
{
    let mut i: usize = 0;
    while i < cards.len()
        invariant
            i <= cards@.len(),
            forall|j: int|
                0 <= j < i ==> !spec_matches_standard_card(
                    #[trigger] cards@[j],
                    base_id,
                    enhancement,
                    edition,
                    seal,
                ),
        decreases cards@.len() - i,
    {
        if matches_standard_card(&cards[i], base_id, enhancement, edition, seal) {
            return true;
        }
        i += 1;
    }
    false
}

fn resolve_walk(
    count: u32,
    stage: Stage,
    pack: &'static str,
    x: &Derived,
    max: u8,
    joker_id: u16,
    card_id: u16,
) -> (r: (u32, Stage, &'static str, Option<bool>))
    requires
        count < max,
    ensures
        (r.0 as nat, r.1, r.2, r.3) == spec_resolve_walk(
            count as nat,
            stage,
            pack,
            *x,
            max as nat,
            joker_id,
            card_id,
        ),
        r.3 is None ==> r.0 < max,
{
    match stage {
        Stage::DrawPack => {
            let p = match x {
                Derived::Name(q) => *q,
                _ => pack,
            };
            (count, Stage::Open, p, None)
        },
        Stage::Open => {
            let has = match x {
                Derived::Contents(c) => pack_contains_id(c, card_id),
                _ => false,
            };
            if has {
                (count, Stage::Resolve, pack, None)
            } else {
                let n = count + 1;
                (n, Stage::DrawPack, pack, if n == max as u32 {
                    Some(false)
                } else {
                    None
                })
            }
        },
        Stage::Resolve => {
            let n = count + 1;
            let hit = match x {
                Derived::Name(j) => stable_hash16_u16(j) == joker_id,
                _ => false,
            };
            (n, Stage::DrawPack, pack, if hit {
                Some(true)
            } else if n == max as u32 {
                Some(false)
            } else {
                None
            })
        },
    }
}

impl<'a> OpProbe<'a> {
    #[verifier::type_invariant]
    spec fn inv(self) -> bool {
        &&& !(*self.op is AnyOf)
        &&& self.verdict is None ==> (self.count < draw_limit(*self.op) || (*self.op is PackContains
            && self.stage == Stage::Open && self.count == draw_limit(*self.op)))
        &&& draw_limit(*self.op) <= 256
        &&& (self.count as nat, self.stage, self.pack, self.verdict) == run_state(*self.op, self.seen@)
        &&& (*self.op matches Op::HasJoker { slot, joker_id, edition, sticker, .. } ==> {
            &&& self.seen@.len() == self.count
            &&& self.verdict == joker_trace_verdict(slot, joker_id, edition, sticker, self.seen@)
        })
        &&& (*self.op matches Op::AnyPackContains { max_packs, .. } ==> {
            &&& self.seen@.len() == 2 * self.count + if self.stage == Stage::Open {
                1int
            } else {
                0
            }
            &&& self.stage != Stage::Resolve
            &&& self.verdict == walk_trace_verdict(*self.op, max_packs, self.seen@)
        })
        &&& (*self.op matches Op::StandardCardIs { max_packs, .. } ==> {
            &&& self.seen@.len() == 2 * self.count + if self.stage == Stage::Open {
                1int
            } else {
                0
            }
            &&& self.stage != Stage::Resolve
            &&& self.verdict == walk_trace_verdict(*self.op, max_packs, self.seen@)
        })
    }

    /// Everything the derivations gave so far, in order.
    pub closed spec fn seen(&self) -> Seq<Derived> {
        self.seen@
    }

    /// The op being evaluated.
    pub closed spec fn op(&self) -> Op {
        *self.op
    }

    /// How many slots, tags or packs were drawn (packs: fully looked at).
    pub closed spec fn count(&self) -> nat {
        self.count as nat
    }

    /// Where a pack walk stands.
    pub closed spec fn stage(&self) -> Stage {
        self.stage
    }

    /// The pack drawn last.
    pub closed spec fn pack(&self) -> &'static str {
        self.pack
    }

    /// The verdict, once reached.
    pub closed spec fn verdict(&self) -> Option<bool> {
        self.verdict
    }

    /// The probe stands where its start and what it was fed lead.
    pub open spec fn ran(&self) -> bool {
        (self.count(), self.stage(), self.pack(), self.verdict()) == run_state(self.op(), self.seen())
    }

    /// The derivation the probe waits for, given where it stands.
    pub open spec fn awaiting(&self) -> Derivation {
        match self.op() {
            Op::HasJoker { .. } => Derivation::ShopItem,
            Op::TagIs { .. } => Derivation::Tag,
            Op::BossIs { .. } => Derivation::Boss,
            Op::VoucherIs { .. } => Derivation::Voucher,
            Op::SoulIs { .. } => if self.stage() == Stage::DrawPack {
                Derivation::Pack
            } else if self.stage() == Stage::Open {
                Derivation::OpenPack(self.pack())
            } else {
                Derivation::SoulLegendary
            },
            Op::WraithIs { .. } => if self.stage() == Stage::DrawPack {
                Derivation::Pack
            } else if self.stage() == Stage::Open {
                Derivation::OpenPack(self.pack())
            } else {
                Derivation::WraithRare
            },
            _ => if self.stage() == Stage::DrawPack {
                Derivation::Pack
            } else {
                Derivation::OpenPackDetailed(self.pack())
            },
        }
    }

    /// The answer a probe in this state gives.
    pub open spec fn answer(&self) -> Probe {
        match self.verdict() {
            Some(b) => Probe::Verdict(b),
            None => Probe::Need(self.awaiting()),
        }
    }

    /// The op's ante, as the derivations take it.
    pub fn ante(&self) -> (r: i32)
        ensures
            r == op_ante(self.op()),
    {
        match self.op {
            Op::HasJoker { ante, .. } => *ante as i32,
            Op::TagIs { ante, .. } => *ante as i32,
            Op::BossIs { ante, .. } => *ante as i32,
            Op::VoucherIs { ante, .. } => *ante as i32,
            Op::PackContains { ante, .. } => *ante as i32,
            Op::AnyPackContains { ante, .. } => *ante as i32,
            Op::SoulIs { ante, .. } => *ante as i32,
            Op::WraithIs { ante, .. } => *ante as i32,
            Op::StandardCardIs { ante, .. } => *ante as i32,
            Op::AnyOf { .. } => 0,
        }
    }

    /// Starts evaluating `op` on a fresh copy of the seed's run. A pack walk
    /// over no packs is false at once; every other op first needs a draw.
    pub fn start(op: &'a Op) -> (r: (OpProbe<'a>, Probe))
        requires
            !(op is AnyOf),
        ensures
            r.0.op() == *op,
            r.0.count() == 0,
            r.0.stage() == Stage::DrawPack,
            r.0.verdict() == (if packs_walked(*op) == Some(0nat) {
                Some(false)
            } else {
                None::<bool>
            }),
            r.1 == r.0.answer(),
            r.0.seen() == Seq::<Derived>::empty(),
            r.0.ran(),
    {
        let empty_walk = match op {
            Op::AnyPackContains { max_packs, .. } => *max_packs == 0,
            Op::SoulIs { max_packs, .. } => *max_packs == 0,
            Op::WraithIs { max_packs, .. } => *max_packs == 0,
            Op::StandardCardIs { max_packs, .. } => *max_packs == 0,
            _ => false,
        };
        let p = OpProbe {
            op,
            count: 0,
            stage: Stage::DrawPack,
            pack: "",
            verdict: if empty_walk { Some(false) } else { None },
            seen: Ghost(Seq::empty()),
        };
        proof {
            use_type_invariant(&p);
        }
        let a = p.current();
        (p, a)
    }

    /// Takes what the awaited derivation gave and answers with the next
    /// derivation needed or the verdict.
    pub fn feed(&mut self, x: Derived) -> (r: Probe)
        requires
            old(self).verdict() is None,
            fits(old(self).awaiting(), x),
        ensures
            final(self).op() == old(self).op(),
            (final(self).count(), final(self).stage(), final(self).pack(), final(self).verdict())
                == spec_feed(
                old(self).op(),
                old(self).count(),
                old(self).stage(),
                old(self).pack(),
                x,
            ),
            r == final(self).answer(),
            final(self).ran(),
            final(self).seen() == old(self).seen().push(x),
            final(self).op() matches Op::HasJoker { slot, joker_id, edition, sticker, .. }
                ==> final(self).verdict() == joker_trace_verdict(
                slot,
                joker_id,
                edition,
                sticker,
                final(self).seen(),
            ),
            final(self).op() matches Op::AnyPackContains { max_packs, .. }
                ==> final(self).verdict() == walk_trace_verdict(
                final(self).op(),
                max_packs,
                final(self).seen(),
            ),
            final(self).op() matches Op::StandardCardIs { max_packs, .. }
                ==> final(self).verdict() == walk_trace_verdict(
                final(self).op(),
                max_packs,
                final(self).seen(),
            ),
            final(self).verdict() is None ==> 0 < remaining_steps(
                final(self).op(),
                final(self).count(),
                final(self).stage(),
            ) < remaining_steps(old(self).op(), old(self).count(), old(self).stage()),
    {
        proof {
            use_type_invariant(&*self);
        }
        let op = self.op;
        let mut count = self.count;
        let mut stage = self.stage;
        let mut pack = self.pack;
        let verdict: Option<bool>;
        match op {
            Op::HasJoker { slot, joker_id, edition, sticker, .. } => {
                let scan_end: u32 = if *slot == 255 {
                    16
                } else {
                    *slot as u32 + 1
                };
                count = count + 1;
                let target = *slot == 255 || count == scan_end;
                let hit = match &x {
                    Derived::Slot(s) => target && matches_shop_slot(s, *joker_id, *edition, *sticker),
                    _ => false,
                };
                verdict = if hit {
                    Some(true)
                } else if count == scan_end {
                    Some(false)
                } else {
                    None
                };
            },
            Op::TagIs { position, tag_id, .. } => {
                count = count + 1;
                verdict = if count == *position as u32 + 1 {
                    Some(
                        match &x {
                            Derived::Name(t) => stable_hash16_u16(t) == *tag_id,
                            _ => false,
                        },
                    )
                } else {
                    None
                };
            },
            Op::BossIs { boss_id, .. } => {
                count = count + 1;
                verdict = Some(
                    match &x {
                        Derived::Name(b) => stable_hash16_u16(b) == *boss_id,
                        _ => false,
                    },
                );
            },
            Op::VoucherIs { voucher_id, .. } => {
                count = count + 1;
                verdict = Some(
                    match &x {
                        Derived::Name(v) => stable_hash16_u16(v) == *voucher_id,
                        _ => false,
                    },
                );
            },
            Op::PackContains { pack_index, card_id, .. } => {
                if matches!(stage, Stage::DrawPack) {
                    count = count + 1;
                    if count == *pack_index as u32 + 1 {
                        if let Derived::Name(q) = &x {
                            pack = q;
                        }
                        stage = Stage::Open;
                    }
                    verdict = None;
                } else {
                    verdict = Some(
                        match &x {
                            Derived::Contents(c) => pack_contains_id(c, *card_id),
                            _ => false,
                        },
                    );
                }
            },
            Op::AnyPackContains { max_packs, card_id, .. } => {
                if matches!(stage, Stage::DrawPack) {
                    if let Derived::Name(q) = &x {
                        pack = q;
                    }
                    stage = Stage::Open;
                    verdict = None;
                } else {
                    count = count + 1;
                    let hit = match &x {
                        Derived::Contents(c) => pack_contains_id(c, *card_id),
                        _ => false,
                    };
                    stage = Stage::DrawPack;
                    verdict = if hit {
                        Some(true)
                    } else if count == *max_packs as u32 {
                        Some(false)
                    } else {
                        None
                    };
                }
            },
            Op::SoulIs { max_packs, joker_id, .. } => {
                let (c2, s2, p2, v2) = resolve_walk(
                    count,
                    stage,
                    pack,
                    &x,
                    *max_packs,
                    *joker_id,
                    stable_hash16_u16("The Soul"),
                );
                count = c2;
                stage = s2;
                pack = p2;
                verdict = v2;
            },
            Op::WraithIs { max_packs, joker_id, .. } => {
                let (c2, s2, p2, v2) = resolve_walk(
                    count,
                    stage,
                    pack,
                    &x,
                    *max_packs,
                    *joker_id,
                    stable_hash16_u16("Wraith"),
                );
                count = c2;
                stage = s2;
                pack = p2;
                verdict = v2;
            },
            Op::StandardCardIs { max_packs, base_id, enhancement, edition, seal, .. } => {
                if matches!(stage, Stage::DrawPack) {
                    if let Derived::Name(q) = &x {
                        pack = q;
                    }
                    stage = Stage::Open;
                    verdict = None;
                } else {
                    count = count + 1;
                    let hit = match &x {
                        Derived::Contents(PackContents::StandardCards(cards)) => any_card_matches(
                            cards,
                            *base_id,
                            *enhancement,
                            *edition,
                            *seal,
                        ),
                        _ => false,
                    };
                    stage = Stage::DrawPack;
                    verdict = if hit {
                        Some(true)
                    } else if count == *max_packs as u32 {
                        Some(false)
                    } else {
                        None
                    };
                }
            },
            Op::AnyOf { .. } => {
                verdict = None;
            },
        }
        let ghost seen = self.seen@.push(x);
        proof {
            let prev = self.seen@;
            assert(seen.drop_last() =~= prev);
            assert forall|i: int| 0 <= i < prev.len() implies seen[i] == prev[i] by {}
            assert(seen[prev.len() as int] == x);
            match *op {
                Op::HasJoker { slot, joker_id, edition, sticker, .. } => {
                    assert forall|i: int|
                        0 <= i < prev.len() implies !((slot == 255 || i + 1 == slots_scanned(slot))
                        && (#[trigger] seen[i] matches Derived::Slot(s) && spec_matches_shop_slot(
                        s,
                        joker_id,
                        edition,
                        sticker,
                    ))) by {
                        assert(seen[i] == prev[i]);
                    }
                },
                Op::AnyPackContains { .. } => {
                    assert forall|j: int| 0 <= j && 2 * j + 1 < prev.len() implies !opened_hit(
                        *op,
                        #[trigger] seen[2 * j + 1],
                    ) by {
                        assert(seen[2 * j + 1] == prev[2 * j + 1]);
                    }
                    if stage == Stage::DrawPack {
                        let j = (prev.len() - 1) / 2;
                        assert(2 * j + 1 == prev.len());
                    }
                },
                Op::StandardCardIs { .. } => {
                    assert forall|j: int| 0 <= j && 2 * j + 1 < prev.len() implies !opened_hit(
                        *op,
                        #[trigger] seen[2 * j + 1],
                    ) by {
                        assert(seen[2 * j + 1] == prev[2 * j + 1]);
                    }
                    if stage == Stage::DrawPack {
                        let j = (prev.len() - 1) / 2;
                        assert(2 * j + 1 == prev.len());
                    }
                },
                _ => {},
            }
        }
        *self = OpProbe { op, count, stage, pack, verdict, seen: Ghost(seen) };
        proof {
            use_type_invariant(&*self);
        }
        self.current()
    }

    /// The verdict, once reached.
    fn verdict_now(&self) -> (r: Option<bool>)
        ensures
            r == self.verdict(),
    {
        self.verdict
    }

    /// The answer the probe gives now.
    fn answer_now(&self) -> (r: Probe)
        ensures
            r == self.answer(),
    {
        self.current()
    }

    fn current(&self) -> (r: Probe)
        ensures
            r == self.answer(),
    {
        match self.verdict {
            Some(b) => Probe::Verdict(b),
            None => Probe::Need(
                match self.op {
                    Op::HasJoker { .. } => Derivation::ShopItem,
                    Op::TagIs { .. } => Derivation::Tag,
                    Op::BossIs { .. } => Derivation::Boss,
                    Op::VoucherIs { .. } => Derivation::Voucher,
                    Op::SoulIs { .. } => match self.stage {
                        Stage::DrawPack => Derivation::Pack,
                        Stage::Open => Derivation::OpenPack(self.pack),
                        Stage::Resolve => Derivation::SoulLegendary,
                    },
                    Op::WraithIs { .. } => match self.stage {
                        Stage::DrawPack => Derivation::Pack,
                        Stage::Open => Derivation::OpenPack(self.pack),
                        Stage::Resolve => Derivation::WraithRare,
                    },
                    _ => match self.stage {
                        Stage::DrawPack => Derivation::Pack,
                        _ => Derivation::OpenPackDetailed(self.pack),
                    },
                },
            ),
        }
    }
}


// ---------------------------------------------------------------------------
// AnyOf
// ---------------------------------------------------------------------------

/// The leaf ops of a list of ops, in order: an `AnyOf` among them stands
/// for its own leaves, every other op for itself. An `AnyOf` holds when one
/// of its leaves does, each leaf being evaluated on its own copy of the run.
pub open spec fn leaves_of(ops: Seq<Op>) -> Seq<Op>
    decreases ops,
{
    if ops.len() == 0 {
        Seq::empty()
    } else {
        proof {
            assert(decreases_to!(ops => ops.subrange(0, ops.len() - 1)));
        }
        let head = leaves_of(ops.drop_last());
        match ops.last() {
            Op::AnyOf { ops: inner } => {
                proof {
                    assert(decreases_to!(ops => ops[ops.len() - 1]));
                    assert(decreases_to!(ops[ops.len() - 1] => inner));
                    assert(decreases_to!(inner => inner@));
                }
                head + leaves_of(inner@)
            },
            o => head.push(o),
        }
    }
}

/// No leaf is an `AnyOf`.
pub proof fn lemma_leaves_not_any_of(ops: Seq<Op>)
    ensures
        forall|k: int| 0 <= k < leaves_of(ops).len() ==> !(#[trigger] leaves_of(ops)[k] is AnyOf),
    decreases ops,
{
    if ops.len() > 0 {
        assert(decreases_to!(ops => ops.subrange(0, ops.len() - 1)));
        lemma_leaves_not_any_of(ops.drop_last());
        match ops.last() {
            Op::AnyOf { ops: inner } => {
                assert(decreases_to!(ops => ops[ops.len() - 1]));
                assert(decreases_to!(ops[ops.len() - 1] => inner));
                assert(decreases_to!(inner => inner@));
                lemma_leaves_not_any_of(inner@);
            },
            _ => {},
        }
    }
}

/// The ops a sequence of references points at.
pub open spec fn derefs(s: Seq<&Op>) -> Seq<Op> {
    Seq::new(s.len(), |i: int| *s[i])
}

/// Appends the leaves of `ops` to `out`.
fn collect_leaves<'b>(ops: &'b Vec<Op>, out: &mut Vec<&'b Op>)
    ensures
        derefs(final(out)@) == derefs(old(out)@) + leaves_of(ops@),
    decreases ops,
{
    let ghost start = derefs(out@);
    let mut i: usize = 0;
    assert(ops@.subrange(0, 0) =~= Seq::<Op>::empty());
    assert(derefs(out@) =~= start + leaves_of(ops@.subrange(0, 0)));
    while i < ops.len()
        invariant
            i <= ops@.len(),
            derefs(out@) == start + leaves_of(ops@.subrange(0, i as int)),
        decreases ops@.len() - i,
    {
        let ghost before = derefs(out@);
        let ghost sub = ops@.subrange(0, i + 1);
        assert(sub.drop_last() =~= ops@.subrange(0, i as int));
        assert(sub.last() == ops@[i as int]);
        let o: &'b Op = &ops[i];
        match o {
            Op::AnyOf { ops: inner } => {
                proof {
                    assert(decreases_to!(*ops => ops@));
                    assert(decreases_to!(ops@ => ops@[i as int]));
                    assert(decreases_to!(ops@[i as int] => *inner));
                    assert(decreases_to!(*ops => *inner));
                }
                collect_leaves(inner, out);
                assert(derefs(out@) =~= start + leaves_of(sub));
            },
            _ => {
                out.push(o);
                assert(derefs(out@) =~= before.push(*o));
                assert(derefs(out@) =~= start + leaves_of(sub));
            },
        }
        i += 1;
    }
    assert(ops@.subrange(0, ops@.len() as int) =~= ops@);
}

/// The first leaf at or after `from` whose probe does not end at once, that
/// is, which is no walk over zero packs; the number of leaves if there is none.
pub open spec fn first_live(ls: Seq<Op>, from: int) -> int
    decreases ls.len() - from,
{
    if from < 0 || from >= ls.len() {
        ls.len() as int
    } else if packs_walked(ls[from]) == Some(0nat) {
        first_live(ls, from + 1)
    } else {
        from
    }
}

proof fn lemma_first_live_bounds(ls: Seq<Op>, from: int)
    requires
        0 <= from <= ls.len(),
    ensures
        from <= first_live(ls, from) <= ls.len(),
        first_live(ls, from) < ls.len() ==> packs_walked(ls[first_live(ls, from)]) != Some(0nat),
        forall|k: int| from <= k < first_live(ls, from) ==> packs_walked(#[trigger] ls[k]) == Some(
            0nat,
        ),
    decreases ls.len() - from,
{
    if from < ls.len() && packs_walked(ls[from]) == Some(0nat) {
        lemma_first_live_bounds(ls, from + 1);
    }
}

/// Whether `p` is a probe of `op` that has been fed nothing yet and has no
/// verdict.
pub open spec fn fresh(p: OpProbe, op: Op) -> bool {
    &&& p.op() == op
    &&& p.count() == 0
    &&& p.stage() == Stage::DrawPack
    &&& p.verdict() is None
    &&& p.seen() == Seq::<Derived>::empty()
}

/// Evaluation state of an `AnyOf`: its leaves are probed one after the
/// other, each on its own fresh copy of the seed's run, until one holds.
pub struct AnyOfProbe<'a> {
    leaves: Vec<&'a Op>,
    index: usize,
    leaf: Option<OpProbe<'a>>,
    verdict: Option<bool>,
    traces: Ghost<Seq<Seq<Derived>>>,
}

/// `n` empty result sequences.
pub open spec fn empties(n: nat) -> Seq<Seq<Derived>> {
    Seq::new(n, |i: int| Seq::<Derived>::empty())
}

impl<'a> AnyOfProbe<'a> {
    /// The leaves being probed, in order.
    pub closed spec fn leaves(&self) -> Seq<Op> {
        derefs(self.leaves@)
    }

    /// The position of the leaf being probed: the number of leaves found
    /// false before it.
    pub closed spec fn index(&self) -> nat {
        self.index as nat
    }

    /// The probe of the current leaf.
    pub closed spec fn leaf(&self) -> OpProbe<'a> {
        self.leaf->0
    }

    /// The verdict, once reached.
    pub closed spec fn verdict(&self) -> Option<bool> {
        self.verdict
    }

    /// What each leaf started so far was fed from its fresh start, in order
    /// of the leaves.
    pub closed spec fn traces(&self) -> Seq<Seq<Derived>> {
        self.traces@
    }

    /// The probe is consistent: a current leaf exists exactly while leaves
    /// are left; the verdict is true only when that leaf holds, false only
    /// when every leaf was found false.
    pub closed spec fn wf(&self) -> bool {
        &&& self.index <= self.leaves@.len()
        &&& (self.leaf is Some <==> self.index < self.leaves@.len())
        &&& (self.leaf is Some ==> self.leaf->0.op() == *self.leaves@[self.index as int])
        &&& (self.verdict == Some(false) <==> self.index == self.leaves@.len())
        &&& (self.verdict == Some(true) ==> self.leaf->0.verdict() == Some(true))
        &&& (self.verdict is None ==> self.leaf is Some && self.leaf->0.verdict() is None)
        &&& (self.leaf is Some ==> self.leaf->0.verdict() != Some(false))
        &&& forall|k: int| 0 <= k < self.leaves@.len() ==> !(*#[trigger] self.leaves@[k] is AnyOf)
        &&& self.traces@.len() == if self.index < self.leaves@.len() {
            self.index + 1
        } else {
            self.leaves@.len() as int
        }
        &&& forall|k: int|
            0 <= k < self.index && k < self.leaves@.len() ==> run_state(
                *self.leaves@[k],
                #[trigger] self.traces@[k],
            ).3 == Some(false)
        &&& (self.leaf is Some ==> self.leaf->0.seen() == self.traces@[self.index as int]
            && self.leaf->0.ran())
    }

    /// The answer a probe in this state gives.
    pub open spec fn answer(&self) -> Probe {
        match self.verdict() {
            Some(b) => Probe::Verdict(b),
            None => self.leaf().answer(),
        }
    }

    /// The state a leaf probe moves to when `x` arrives.
    pub open spec fn leaf_step(&self, x: Derived) -> (nat, Stage, &'static str, Option<bool>) {
        spec_feed(self.leaf().op(), self.leaf().count(), self.leaf().stage(), self.leaf().pack(), x)
    }

    /// Opens the first leaf at or after `from` that needs a derivation.
    fn open_from(leaves: &Vec<&'a Op>, from: usize) -> (r: (usize, Option<OpProbe<'a>>))
        requires
            from <= leaves@.len(),
            forall|k: int| 0 <= k < leaves@.len() ==> !(*#[trigger] leaves@[k] is AnyOf),
        ensures
            r.0 as int == first_live(derefs(leaves@), from as int),
            from <= r.0 <= leaves@.len(),
            r.1 is Some <==> r.0 < leaves@.len(),
            r.1 is Some ==> fresh(r.1->0, *leaves@[r.0 as int]) && r.1->0.ran(),
            forall|k: int| from <= k < r.0 ==> packs_walked(*#[trigger] leaves@[k]) == Some(0nat),
    {
        let ghost ls = derefs(leaves@);
        proof {
            lemma_first_live_bounds(ls, from as int);
        }
        let mut i = from;
        while i < leaves.len()
            invariant
                from <= i <= leaves@.len(),
                ls == derefs(leaves@),
                first_live(ls, i as int) == first_live(ls, from as int),
                forall|k: int| 0 <= k < leaves@.len() ==> !(*#[trigger] leaves@[k] is AnyOf),
                forall|k: int| from <= k < i ==> packs_walked(*#[trigger] leaves@[k]) == Some(0nat),
            decreases leaves@.len() - i,
        {
            let op: &'a Op = leaves[i];
            assert(ls[i as int] == *op);
            let (p, _) = OpProbe::start(op);
            match p.verdict_now() {
                None => {
                    return (i, Some(p));
                },
                Some(_) => {
                    i += 1;
                },
            }
        }
        (i, None)
    }

    /// Starts evaluating an `AnyOf` of `ops`. Leaves that end at once (walks
    /// over zero packs) are false and skipped; with no leaf left the verdict
    /// is false at once.
    pub fn start_any(ops: &'a Vec<Op>) -> (r: (AnyOfProbe<'a>, Probe))
        ensures
            r.0.wf(),
            r.0.leaves() == leaves_of(ops@),
            r.0.index() as int == first_live(leaves_of(ops@), 0),
            r.0.verdict() == (if r.0.index() == leaves_of(ops@).len() {
                Some(false)
            } else {
                None::<bool>
            }),
            r.0.index() < leaves_of(ops@).len() ==> fresh(
                r.0.leaf(),
                leaves_of(ops@)[r.0.index() as int],
            ),
            r.0.traces() == empties(
                if r.0.index() < leaves_of(ops@).len() {
                    r.0.index() + 1
                } else {
                    leaves_of(ops@).len()
                },
            ),
            r.1 == r.0.answer(),
    {
        let mut leaves: Vec<&'a Op> = Vec::new();
        assert(derefs(leaves@) =~= Seq::<Op>::empty());
        collect_leaves(ops, &mut leaves);
        assert(derefs(leaves@) =~= leaves_of(ops@));
        proof {
            lemma_leaves_not_any_of(ops@);
            assert forall|k: int| 0 <= k < leaves@.len() implies !(*#[trigger] leaves@[k] is AnyOf) by {
                assert(derefs(leaves@)[k] == *leaves@[k]);
            }
        }
        let (index, leaf) = Self::open_from(&leaves, 0);
        let verdict = if index == leaves.len() {
            Some(false)
        } else {
            None
        };
        let ghost started: nat = if index < leaves@.len() {
            (index + 1) as nat
        } else {
            leaves@.len()
        };
        let p = AnyOfProbe { leaves, index, leaf, verdict, traces: Ghost(empties(started)) };
        let a = p.current();
        (p, a)
    }

    /// The position of the leaf being probed. A new position means a new
    /// leaf, to be evaluated on a fresh copy of the seed's run.
    pub fn leaf_index(&self) -> (r: usize)
        ensures
            r == self.index(),
    {
        self.index
    }

    /// The ante of the leaf being probed, as the derivations take it.
    pub fn ante(&self) -> (r: i32)
        requires
            self.wf(),
            self.verdict() is None,
        ensures
            r == op_ante(self.leaf().op()),
    {
        match &self.leaf {
            Some(p) => p.ante(),
            None => 0,
        }
    }

    /// Takes what the awaited derivation gave the current leaf. The `AnyOf`
    /// holds as soon as that leaf holds; when the leaf is false the next
    /// leaf that needs a derivation starts fresh, and when none is left the
    /// `AnyOf` is false.
    pub fn feed_any(&mut self, x: Derived) -> (r: Probe)
        requires
            old(self).wf(),
            old(self).verdict() is None,
            fits(old(self).leaf().awaiting(), x),
        ensures
            final(self).wf(),
            final(self).leaves() == old(self).leaves(),
            r == final(self).answer(),
            old(self).leaf_step(x).3 == Some(true) ==> final(self).verdict() == Some(true)
                && final(self).index() == old(self).index(),
            old(self).leaf_step(x).3 is None ==> {
                &&& final(self).verdict() is None
                &&& final(self).index() == old(self).index()
                &&& final(self).leaf().op() == old(self).leaf().op()
                &&& final(self).leaf().count() == old(self).leaf_step(x).0
                &&& final(self).leaf().stage() == old(self).leaf_step(x).1
                &&& final(self).leaf().pack() == old(self).leaf_step(x).2
                &&& final(self).leaf().verdict() == old(self).leaf_step(x).3
                &&& final(self).leaf().seen() == old(self).leaf().seen().push(x)
            },
            old(self).leaf_step(x).3 == Some(false) ==> {
                &&& final(self).index() as int == first_live(
                    old(self).leaves(),
                    old(self).index() + 1int,
                )
                &&& final(self).verdict() == (if final(self).index() == old(self).leaves().len() {
                    Some(false)
                } else {
                    None::<bool>
                })
                &&& final(self).index() < old(self).leaves().len() ==> fresh(
                    final(self).leaf(),
                    old(self).leaves()[final(self).index() as int],
                )
            },
            final(self).traces().len() >= old(self).traces().len(),
            final(self).traces()[old(self).index() as int]
                == old(self).traces()[old(self).index() as int].push(x),
            forall|k: int|
                0 <= k < old(self).index()
                    ==> #[trigger] final(self).traces()[k] == old(self).traces()[k],
            forall|k: int|
                old(self).traces().len() <= k < final(self).traces().len()
                    ==> #[trigger] final(self).traces()[k] == Seq::<Derived>::empty(),
    {
        let ghost ls = derefs(self.leaves@);
        let ghost fed = self.traces@.update(self.index as int, self.traces@[self.index as int].push(x));
        let mut p = match self.leaf.take() {
            Some(p) => p,
            None => {
                return Probe::Verdict(false);
            },
        };
        let a = p.feed(x);
        match a {
            Probe::Verdict(true) => {
                self.leaf = Some(p);
                self.verdict = Some(true);
                self.traces = Ghost(fed);
            },
            Probe::Verdict(false) => {
                let n = self.leaves.len();
                assert(self.index < n);
                let ghost done = self.index + 1;
                let (index, leaf) = Self::open_from(&self.leaves, self.index + 1);
                let ghost started: int = if index < n {
                    index + 1
                } else {
                    n as int
                };
                self.index = index;
                self.leaf = leaf;
                self.verdict = if index == self.leaves.len() {
                    Some(false)
                } else {
                    None
                };
                self.traces = Ghost(fed + empties((started - done) as nat));
                proof {
                    let t = self.traces@;
                    assert forall|k: int| 0 <= k < index && k < n implies run_state(
                        *self.leaves@[k],
                        #[trigger] t[k],
                    ).3 == Some(false) by {
                        if k >= done {
                            assert(t[k] == Seq::<Derived>::empty());
                            assert(packs_walked(*self.leaves@[k]) == Some(0nat));
                        } else {
                            assert(t[k] == fed[k]);
                        }
                    }
                    if index < n {
                        assert(t[index as int] == Seq::<Derived>::empty());
                    }
                }
            },
            Probe::Need(_) => {
                self.leaf = Some(p);
                self.traces = Ghost(fed);
            },
        }
        assert(derefs(self.leaves@) == ls);
        self.current()
    }

    fn current(&self) -> (r: Probe)
        requires
            self.wf(),
        ensures
            r == self.answer(),
    {
        match self.verdict {
            Some(b) => Probe::Verdict(b),
            None => match &self.leaf {
                Some(p) => p.answer_now(),
                None => Probe::Verdict(false),
            },
        }
    }
}


/// An `AnyOf` with a verdict is true exactly when the run of some leaf
/// ended true, and false only when the run of every leaf ended false.
pub proof fn lemma_any_of_verdict(p: AnyOfProbe)
    requires
        p.wf(),
        p.verdict() is Some,
    ensures
        p.verdict() == Some(true) <==> exists|k: int|
            0 <= k < p.traces().len() && #[trigger] run_state(p.leaves()[k], p.traces()[k]).3
                == Some(true),
        p.verdict() == Some(false) ==> p.traces().len() == p.leaves().len() && forall|k: int|
            0 <= k < p.leaves().len() ==> #[trigger] run_state(p.leaves()[k], p.traces()[k]).3
                == Some(false),
{
    let ls = p.leaves();
    assert forall|k: int| 0 <= k < ls.len() implies ls[k] == *p.leaves@[k] by {}
    if p.verdict() == Some(true) {
        let k = p.index as int;
        assert(run_state(ls[k], p.traces()[k]).3 == Some(true));
    } else {
        assert(p.verdict == Some(false));
        assert(p.index == p.leaves@.len());
        assert(p.traces@.len() == p.leaves@.len());
        assert forall|k: int| 0 <= k < p.leaves@.len() implies #[trigger] run_state(
            ls[k],
            p.traces()[k],
        ).3 == Some(false) by {
            assert(k < p.index);
            assert(run_state(*p.leaves@[k], p.traces@[k]).3 == Some(false));
        }
    }
}

/// Whether op `o` holds when each leaf op holds as `holds` says: an `AnyOf`
/// when one of its leaves does.
pub open spec fn op_holds(o: Op, holds: spec_fn(Op) -> bool) -> bool {
    match o {
        Op::AnyOf { ops } => exists|k: int|
            0 <= k < leaves_of(ops@).len() && holds(#[trigger] leaves_of(ops@)[k]),
        _ => holds(o),
    }
}

/// Whether some leaf of `ops` holds, when each leaf op holds as `holds` says.
pub open spec fn some_leaf_holds(ops: Seq<Op>, holds: spec_fn(Op) -> bool) -> bool {
    exists|k: int| 0 <= k < leaves_of(ops).len() && holds(#[trigger] leaves_of(ops)[k])
}

/// Some leaf of `ops` holds exactly when some op of `ops` holds.
proof fn lemma_some_leaf_holds_ops(ops: Seq<Op>, holds: spec_fn(Op) -> bool)
    ensures
        some_leaf_holds(ops, holds) <==> exists|i: int|
            0 <= i < ops.len() && op_holds(#[trigger] ops[i], holds),
    decreases ops.len(),
{
    if ops.len() > 0 {
        let init = ops.drop_last();
        lemma_some_leaf_holds_ops(init, holds);
        let head = leaves_of(init);
        let tail = match ops.last() {
            Op::AnyOf { ops: inner } => leaves_of(inner@),
            o => seq![o],
        };
        assert(leaves_of(ops) == head + tail);
        let all = leaves_of(ops);
        if some_leaf_holds(ops, holds) {
            let k = choose|k: int| 0 <= k < all.len() && holds(#[trigger] all[k]);
            if k < head.len() {
                assert(all[k] == head[k]);
                assert(some_leaf_holds(init, holds));
                let i = choose|i: int| 0 <= i < init.len() && op_holds(#[trigger] init[i], holds);
                assert(ops[i] == init[i]);
            } else {
                assert(all[k] == tail[k - head.len()]);
                assert(op_holds(ops[ops.len() - 1], holds));
            }
        }
        if exists|i: int| 0 <= i < ops.len() && op_holds(#[trigger] ops[i], holds) {
            let i = choose|i: int| 0 <= i < ops.len() && op_holds(#[trigger] ops[i], holds);
            if i < init.len() {
                assert(init[i] == ops[i]);
                assert(some_leaf_holds(init, holds));
                let k = choose|k: int| 0 <= k < head.len() && holds(#[trigger] head[k]);
                assert(all[k] == head[k]);
            } else {
                match ops.last() {
                    Op::AnyOf { ops: inner } => {
                        let k = choose|k: int|
                            0 <= k < tail.len() && holds(#[trigger] tail[k]);
                        assert(all[head.len() + k] == tail[k]);
                    },
                    o => {
                        assert(all[head.len() as int] == o);
                    },
                }
            }
        }
    }
}

/// Whether some leaf of an `AnyOf` holds does not depend on the order of
/// its ops: any reordering gives the same answer.
pub proof fn lemma_some_leaf_holds_any_order(
    ops: Seq<Op>,
    reordered: Seq<Op>,
    holds: spec_fn(Op) -> bool,
)
    requires
        ops.to_multiset() == reordered.to_multiset(),
    ensures
        some_leaf_holds(ops, holds) == some_leaf_holds(reordered, holds),
{
    broadcast use vstd::seq_lib::group_to_multiset_ensures;

    lemma_some_leaf_holds_ops(ops, holds);
    lemma_some_leaf_holds_ops(reordered, holds);
    if exists|i: int| 0 <= i < ops.len() && op_holds(#[trigger] ops[i], holds) {
        let i = choose|i: int| 0 <= i < ops.len() && op_holds(#[trigger] ops[i], holds);
        assert(ops.contains(ops[i]));
        assert(reordered.to_multiset().count(ops[i]) > 0);
        assert(reordered.contains(ops[i]));
        let j = choose|j: int| 0 <= j < reordered.len() && reordered[j] == ops[i];
        assert(op_holds(reordered[j], holds));
    }
    if exists|i: int| 0 <= i < reordered.len() && op_holds(#[trigger] reordered[i], holds) {
        let i = choose|i: int| 0 <= i < reordered.len() && op_holds(#[trigger] reordered[i], holds);
        assert(reordered.contains(reordered[i]));
        assert(ops.to_multiset().count(reordered[i]) > 0);
        assert(ops.contains(reordered[i]));
        let j = choose|j: int| 0 <= j < ops.len() && ops[j] == reordered[i];
        assert(op_holds(ops[j], holds));
    }
}

/// When the run of each leaf, once it ends, ends as `holds` says of the
/// leaf (the leaves are probed on fresh copies of the same run, so a leaf's
/// verdict depends on the leaf alone), the verdict of an `AnyOf` of `ops` is
/// whether some leaf holds; by `lemma_some_leaf_holds_any_order` that is
/// the same for every order of `ops`.
pub proof fn lemma_any_of_answer(p: AnyOfProbe, ops: Seq<Op>, holds: spec_fn(Op) -> bool)
    requires
        p.wf(),
        p.verdict() is Some,
        p.leaves() == leaves_of(ops),
        forall|k: int|
            0 <= k < p.traces().len() && (#[trigger] run_state(p.leaves()[k], p.traces()[k]).3) is Some
                ==> run_state(p.leaves()[k], p.traces()[k]).3 == Some(holds(p.leaves()[k])),
    ensures
        p.verdict() == Some(some_leaf_holds(ops, holds)),
{
    lemma_any_of_verdict(p);
    let ls = p.leaves();
    if p.verdict() == Some(true) {
        let k = choose|k: int|
            0 <= k < p.traces().len() && #[trigger] run_state(ls[k], p.traces()[k]).3 == Some(true);
        assert(holds(ls[k]));
    } else {
        assert(p.verdict() == Some(false));
        assert(p.traces().len() == ls.len());
        assert forall|k: int| 0 <= k < ls.len() implies !holds(#[trigger] ls[k]) by {
            assert(run_state(ls[k], p.traces()[k]).3 == Some(false));
        }
    }
}


// ---------------------------------------------------------------------------
// Trace laws of single-op probes
// ---------------------------------------------------------------------------

/// A tag check decides on the tag at its position alone: before
/// `position + 1` tags were drawn there is no verdict; once they were, the
/// verdict is whether the last one drawn (the tag at the position: 0 the
/// small blind's, 1 the big blind's) has the wanted digest, whatever the
/// earlier tags were.
pub proof fn lemma_tag_trace(ante: u8, position: u8, tag_id: u16, t: Seq<Derived>)
    requires
        t.len() <= position + 1,
    ensures
        run_state(Op::TagIs { ante, position, tag_id }, t).0 == t.len(),
        run_state(Op::TagIs { ante, position, tag_id }, t).1 == Stage::DrawPack,
        t.len() < position + 1 ==> run_state(Op::TagIs { ante, position, tag_id }, t).3 is None,
        t.len() == position + 1 ==> run_state(Op::TagIs { ante, position, tag_id }, t).3 == Some(
            t.last() matches Derived::Name(n) && hash16(n.spec_bytes()) == tag_id,
        ),
    decreases t.len(),
{
    if t.len() > 0 {
        lemma_tag_trace(ante, position, tag_id, t.drop_last());
    }
}

/// A boss check decides on the first boss drawn: its verdict is whether
/// that boss has the wanted digest, and later results change nothing.
pub proof fn lemma_boss_trace(ante: u8, boss_id: u16, t: Seq<Derived>)
    requires
        t.len() >= 1,
    ensures
        run_state(Op::BossIs { ante, boss_id }, t).3 == Some(
            t[0] matches Derived::Name(n) && hash16(n.spec_bytes()) == boss_id,
        ),
    decreases t.len(),
{
    if t.len() > 1 {
        lemma_boss_trace(ante, boss_id, t.drop_last());
        assert(t.drop_last()[0] == t[0]);
    } else {
        let op = Op::BossIs { ante, boss_id };
        assert(t.drop_last() =~= Seq::<Derived>::empty());
        assert(run_state(op, Seq::<Derived>::empty()).3 is None);
        assert(t.last() == t[0]);
    }
}

/// A voucher check decides on the first voucher drawn: its verdict is
/// whether that voucher has the wanted digest, and later results change
/// nothing.
pub proof fn lemma_voucher_trace(ante: u8, voucher_id: u16, t: Seq<Derived>)
    requires
        t.len() >= 1,
    ensures
        run_state(Op::VoucherIs { ante, voucher_id }, t).3 == Some(
            t[0] matches Derived::Name(n) && hash16(n.spec_bytes()) == voucher_id,
        ),
    decreases t.len(),
{
    if t.len() > 1 {
        lemma_voucher_trace(ante, voucher_id, t.drop_last());
        assert(t.drop_last()[0] == t[0]);
    } else {
        let op = Op::VoucherIs { ante, voucher_id };
        assert(t.drop_last() =~= Seq::<Derived>::empty());
        assert(run_state(op, Seq::<Derived>::empty()).3 is None);
        assert(t.last() == t[0]);
    }
}

/// A check of one pack draws `pack_index + 1` packs, opens the last one
/// drawn, and decides whether its contents hold the wanted card; the packs
/// before it play no part.
pub proof fn lemma_pack_trace(ante: u8, pack_index: u8, card_id: u16, t: Seq<Derived>)
    requires
        t.len() <= pack_index + 2,
    ensures
        t.len() <= pack_index ==> run_state(Op::PackContains { ante, pack_index, card_id }, t)
            == (t.len(), Stage::DrawPack, "", None::<bool>),
        t.len() == pack_index + 1 ==> run_state(Op::PackContains { ante, pack_index, card_id }, t)
            == (t.len(), Stage::Open, name_or(t.last(), ""), None::<bool>),
        t.len() == pack_index + 2 ==> run_state(Op::PackContains { ante, pack_index, card_id }, t).3
            == Some(t.last() matches Derived::Contents(c) && spec_pack_contains_id(c, card_id)),
    decreases t.len(),
{
    if t.len() > 0 {
        lemma_pack_trace(ante, pack_index, card_id, t.drop_last());
    }
}


/// A Soul walk opens each drawn pack, of whatever kind it is. When the
/// opened pack holds The Soul the walk resolves it and holds exactly when the
/// joker it gives has the wanted digest; when the pack does not hold it, or
/// the joker is another, the walk goes on to the next pack, and is false
/// once `max_packs` packs are spent. Stated here for the first pack.
pub proof fn lemma_soul_first_pack(
    ante: u8,
    max_packs: u8,
    joker_id: u16,
    p: Derived,
    c: PackContents,
    j: Derived,
)
    requires
        max_packs >= 1,
    ensures
        run_state(Op::SoulIs { ante, max_packs, joker_id }, seq![p]).1 == Stage::Open,
        run_state(Op::SoulIs { ante, max_packs, joker_id }, seq![p]).3 is None,
        spec_pack_contains_id(c, hash16("The Soul".spec_bytes())) ==> run_state(
            Op::SoulIs { ante, max_packs, joker_id },
            seq![p, Derived::Contents(c)],
        ).1 == Stage::Resolve && run_state(
            Op::SoulIs { ante, max_packs, joker_id },
            seq![p, Derived::Contents(c)],
        ).3 is None,
        !spec_pack_contains_id(c, hash16("The Soul".spec_bytes())) ==> run_state(
            Op::SoulIs { ante, max_packs, joker_id },
            seq![p, Derived::Contents(c)],
        ).3 == (if max_packs == 1 {
            Some(false)
        } else {
            None::<bool>
        }),
        spec_pack_contains_id(c, hash16("The Soul".spec_bytes())) ==> run_state(
            Op::SoulIs { ante, max_packs, joker_id },
            seq![p, Derived::Contents(c), j],
        ).3 == (if j matches Derived::Name(n) && hash16(n.spec_bytes()) == joker_id {
            Some(true)
        } else if max_packs == 1 {
            Some(false)
        } else {
            None::<bool>
        }),
{
    let op = Op::SoulIs { ante, max_packs, joker_id };
    let t1 = seq![p];
    let t2 = seq![p, Derived::Contents(c)];
    let t3 = seq![p, Derived::Contents(c), j];
    assert(t1.drop_last() =~= Seq::<Derived>::empty());
    assert(t2.drop_last() =~= t1);
    assert(t3.drop_last() =~= t2);
    assert(run_state(op, Seq::<Derived>::empty()).3 is None);
    assert(run_state(op, t1).3 is None);
    assert(t2.last() == Derived::Contents(c));
}

/// A Wraith walk opens each drawn pack, of whatever kind it is. When the
/// opened pack holds Wraith the walk resolves it and holds exactly when the
/// joker it gives has the wanted digest; when the pack does not hold it, or
/// the joker is another, the walk goes on to the next pack, and is false
/// once `max_packs` packs are spent. Stated here for the first pack.
pub proof fn lemma_wraith_first_pack(
    ante: u8,
    max_packs: u8,
    joker_id: u16,
    p: Derived,
    c: PackContents,
    j: Derived,
)
    requires
        max_packs >= 1,
    ensures
        run_state(Op::WraithIs { ante, max_packs, joker_id }, seq![p]).1 == Stage::Open,
        run_state(Op::WraithIs { ante, max_packs, joker_id }, seq![p]).3 is None,
        spec_pack_contains_id(c, hash16("Wraith".spec_bytes())) ==> run_state(
            Op::WraithIs { ante, max_packs, joker_id },
            seq![p, Derived::Contents(c)],
        ).1 == Stage::Resolve && run_state(
            Op::WraithIs { ante, max_packs, joker_id },
            seq![p, Derived::Contents(c)],
        ).3 is None,
        !spec_pack_contains_id(c, hash16("Wraith".spec_bytes())) ==> run_state(
            Op::WraithIs { ante, max_packs, joker_id },
            seq![p, Derived::Contents(c)],
        ).3 == (if max_packs == 1 {
            Some(false)
        } else {
            None::<bool>
        }),
        spec_pack_contains_id(c, hash16("Wraith".spec_bytes())) ==> run_state(
            Op::WraithIs { ante, max_packs, joker_id },
            seq![p, Derived::Contents(c), j],
        ).3 == (if j matches Derived::Name(n) && hash16(n.spec_bytes()) == joker_id {
            Some(true)
        } else if max_packs == 1 {
            Some(false)
        } else {
            None::<bool>
        }),
{
    let op = Op::WraithIs { ante, max_packs, joker_id };
    let t1 = seq![p];
    let t2 = seq![p, Derived::Contents(c)];
    let t3 = seq![p, Derived::Contents(c), j];
    assert(t1.drop_last() =~= Seq::<Derived>::empty());
    assert(t2.drop_last() =~= t1);
    assert(t3.drop_last() =~= t2);
    assert(run_state(op, Seq::<Derived>::empty()).3 is None);
    assert(run_state(op, t1).3 is None);
    assert(t2.last() == Derived::Contents(c));
}


/// Each pack of a Soul walk, at any point of the walk: drawing a pack
/// opens it; opened contents of any kind that hold The Soul lead to resolving
/// it, other contents spend the pack; the resolved joker decides the walk
/// when it has the wanted digest, else the pack is spent. The walk is false
/// when the last of its `max_packs` packs is spent.
pub proof fn lemma_soul_pack_step(
    ante: u8,
    max_packs: u8,
    joker_id: u16,
    count: nat,
    pack: &'static str,
    x: Derived,
    c: PackContents,
)
    requires
        count < max_packs,
    ensures
        spec_feed(Op::SoulIs { ante, max_packs, joker_id }, count, Stage::DrawPack, pack, x) == (
            count,
            Stage::Open,
            name_or(x, pack),
            None::<bool>,
        ),
        spec_pack_contains_id(c, hash16("The Soul".spec_bytes())) ==> spec_feed(
            Op::SoulIs { ante, max_packs, joker_id },
            count,
            Stage::Open,
            pack,
            Derived::Contents(c),
        ) == (count, Stage::Resolve, pack, None::<bool>),
        !spec_pack_contains_id(c, hash16("The Soul".spec_bytes())) ==> spec_feed(
            Op::SoulIs { ante, max_packs, joker_id },
            count,
            Stage::Open,
            pack,
            Derived::Contents(c),
        ) == (count + 1, Stage::DrawPack, pack, if count + 1 == max_packs {
            Some(false)
        } else {
            None::<bool>
        }),
        spec_feed(Op::SoulIs { ante, max_packs, joker_id }, count, Stage::Resolve, pack, x) == (
            count + 1,
            Stage::DrawPack,
            pack,
            if x matches Derived::Name(n) && hash16(n.spec_bytes()) == joker_id {
                Some(true)
            } else if count + 1 == max_packs {
                Some(false)
            } else {
                None::<bool>
            },
        ),
{
}

/// Each pack of a Wraith walk, at any point of the walk: drawing a pack
/// opens it; opened contents of any kind that hold Wraith lead to resolving
/// it, other contents spend the pack; the resolved joker decides the walk
/// when it has the wanted digest, else the pack is spent. The walk is false
/// when the last of its `max_packs` packs is spent.
pub proof fn lemma_wraith_pack_step(
    ante: u8,
    max_packs: u8,
    joker_id: u16,
    count: nat,
    pack: &'static str,
    x: Derived,
    c: PackContents,
)
    requires
        count < max_packs,
    ensures
        spec_feed(Op::WraithIs { ante, max_packs, joker_id }, count, Stage::DrawPack, pack, x) == (
            count,
            Stage::Open,
            name_or(x, pack),
            None::<bool>,
        ),
        spec_pack_contains_id(c, hash16("Wraith".spec_bytes())) ==> spec_feed(
            Op::WraithIs { ante, max_packs, joker_id },
            count,
            Stage::Open,
            pack,
            Derived::Contents(c),
        ) == (count, Stage::Resolve, pack, None::<bool>),
        !spec_pack_contains_id(c, hash16("Wraith".spec_bytes())) ==> spec_feed(
            Op::WraithIs { ante, max_packs, joker_id },
            count,
            Stage::Open,
            pack,
            Derived::Contents(c),
        ) == (count + 1, Stage::DrawPack, pack, if count + 1 == max_packs {
            Some(false)
        } else {
            None::<bool>
        }),
        spec_feed(Op::WraithIs { ante, max_packs, joker_id }, count, Stage::Resolve, pack, x) == (
            count + 1,
            Stage::DrawPack,
            pack,
            if x matches Derived::Name(n) && hash16(n.spec_bytes()) == joker_id {
                Some(true)
            } else if count + 1 == max_packs {
                Some(false)
            } else {
                None::<bool>
            },
        ),
{
}


/// Each pack of an any-pack walk, at any point of the walk: drawing a pack
/// opens it; the opened contents decide the walk when they hold the wanted
/// card, of whatever kind the pack is; else the pack is spent, and the walk
/// is false when the last of its `max_packs` packs is spent.
pub proof fn lemma_any_pack_step(
    ante: u8,
    max_packs: u8,
    card_id: u16,
    count: nat,
    pack: &'static str,
    x: Derived,
    c: PackContents,
)
    requires
        count < max_packs,
    ensures
        spec_feed(Op::AnyPackContains { ante, max_packs, card_id }, count, Stage::DrawPack, pack, x)
            == (count, Stage::Open, name_or(x, pack), None::<bool>),
        spec_feed(
            Op::AnyPackContains { ante, max_packs, card_id },
            count,
            Stage::Open,
            pack,
            Derived::Contents(c),
        ) == (count + 1, Stage::DrawPack, pack, if spec_pack_contains_id(c, card_id) {
            Some(true)
        } else if count + 1 == max_packs {
            Some(false)
        } else {
            None::<bool>
        }),
{
}

/// Each pack of a Standard-card walk, at any point of the walk: drawing a
/// pack opens it; the opened contents decide the walk when they are Standard
/// cards one of which meets the clause; else the pack is spent, and the walk
/// is false when the last of its `max_packs` packs is spent.
pub proof fn lemma_standard_pack_step(
    ante: u8,
    max_packs: u8,
    base_id: u16,
    enhancement: Option<u16>,
    edition: Option<u8>,
    seal: Option<u8>,
    count: nat,
    pack: &'static str,
    x: Derived,
    cards: Vec<StandardCard>,
)
    requires
        count < max_packs,
    ensures
        spec_feed(
            Op::StandardCardIs { ante, max_packs, base_id, enhancement, edition, seal },
            count,
            Stage::DrawPack,
            pack,
            x,
        ) == (count, Stage::Open, name_or(x, pack), None::<bool>),
        spec_feed(
            Op::StandardCardIs { ante, max_packs, base_id, enhancement, edition, seal },
            count,
            Stage::Open,
            pack,
            Derived::Contents(PackContents::StandardCards(cards)),
        ) == (count + 1, Stage::DrawPack, pack, if exists|i: int|
            0 <= i < cards@.len() && spec_matches_standard_card(
                #[trigger] cards@[i],
                base_id,
                enhancement,
                edition,
                seal,
            ) {
            Some(true)
        } else if count + 1 == max_packs {
            Some(false)
        } else {
            None::<bool>
        }),
{
}


/// Each shop slot a joker check looks at: with the any-slot sentinel 255 a
/// slot holding the wanted joker decides the check among the first 16
/// slots, which end it false; with slot `k` the first `k` slots are passed
/// over and slot `k` alone decides.
pub proof fn lemma_joker_step(
    ante: u8,
    slot: u8,
    joker_id: u16,
    edition: Option<u8>,
    sticker: Option<u8>,
    count: nat,
    stage: Stage,
    pack: &'static str,
    x: ShopSlot,
)
    ensures
        ({
            let r = spec_feed(
                Op::HasJoker { ante, slot, joker_id, edition, sticker },
                count,
                stage,
                pack,
                Derived::Slot(x),
            );
            let hit = spec_matches_shop_slot(x, joker_id, edition, sticker);
            &&& r.0 == count + 1
            &&& slot == 255 ==> r.3 == (if hit {
                Some(true)
            } else if count + 1 == 16 {
                Some(false)
            } else {
                None::<bool>
            })
            &&& slot != 255 && count < slot ==> r.3 is None
            &&& slot != 255 && count == slot ==> r.3 == Some(hit)
        }),
{
}

} // verus!
