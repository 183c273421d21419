//! How a played card changes the game, stated step by step over the players' models.
use vstd::prelude::*;
use std::rc::Rc;
use crate::buffs::BuffInfo;
use crate::card::{Card, CardId, Element, Kind, Stars, TargetType, damage_effect_of, heal_effect};
use crate::modifiers::{ModifierInfo, modifier_outcome};
use crate::play_info::{ActionTargetView, ActionTypeView, PlayActionView};
use crate::player::{
    PlayerId, PlayerView, damage_defined, damaged_health, heal_defined, healed_health,
};
use crate::utils::{spec_min, spec_max};

verus! {

/// Why a card could not be played.
#[derive(Clone, Copy, PartialEq, Eq, Structural, Debug)]
pub enum PlayError {
    InvalidTargetCount,
    TargetIsPlayer,
}

/// Message of a play error.
pub open spec fn error_message(e: PlayError) -> Seq<char> {
    match e {
        PlayError::InvalidTargetCount => "Invalid target count"@,
        PlayError::TargetIsPlayer => "Target is player !"@,
    }
}

/// The state of a game while a card is played: the players, the pile, the actions done so far,
/// whether the dice roll was already shown, which buffs of the player were used, and the error that
/// stopped the play (if any).
#[verifier::ext_equal]
pub struct PlayState {
    pub players: Seq<PlayerView>,
    pub pile: Seq<Rc<Card>>,
    pub actions: Seq<PlayActionView>,
    pub dice_used: bool,
    pub buffs_used: Set<usize>,
    pub error: Option<PlayError>,
}

/// State before a card is played.
pub open spec fn initial_state(players: Seq<PlayerView>, pile: Seq<Rc<Card>>) -> PlayState {
    PlayState {
        players,
        pile,
        actions: Seq::empty(),
        dice_used: false,
        buffs_used: Set::empty(),
        error: None,
    }
}

impl PlayState {
    pub open spec fn with_error(self, e: PlayError) -> PlayState {
        PlayState { error: Some(e), ..self }
    }
}

/// Ids of cards.
pub open spec fn card_ids(cards: Seq<Rc<Card>>) -> Seq<CardId> {
    cards.map_values(|c: Rc<Card>| c.get_id())
}

/// Number of cards given from a pile of `pile_len` cards when `amount` are asked for.
pub open spec fn give_count(pile_len: nat, amount: usize) -> nat {
    if amount <= pile_len { amount as nat } else { pile_len }
}

/// The player after receiving `cards` in its hand.
pub open spec fn with_cards(p: PlayerView, cards: Seq<Rc<Card>>) -> PlayerView {
    PlayerView { hand: p.hand + cards, ..p }
}

/// Result of an attack buff fold: the value changed by every applicable attack buff of the player,
/// in order, and the indices of the buffs used. `None` when a buff overflows.
pub open spec fn apply_attack_buffs(
    amount: u32,
    buffs: Seq<Rc<BuffInfo>>,
    e: Element,
    k: Kind,
    s: Stars,
    used: Set<usize>,
) -> Option<(u32, Set<usize>)>
    decreases buffs.len(),
{
    if buffs.len() == 0 {
        Some((amount, used))
    } else {
        match apply_attack_buffs(amount, buffs.drop_last(), e, k, s, used) {
            None => None,
            Some((a, u)) => {
                let b = buffs.last();
                if b.is_attack() && b.applies(e, k, s) {
                    if b.compute_defined(a) {
                        Some((b.computed(a) as u32, u.insert((buffs.len() - 1) as usize)))
                    } else {
                        None
                    }
                } else {
                    Some((a, u))
                }
            },
        }
    }
}

/// Outcome of an optional modifier: without modifier, the base value and no dice.
pub open spec fn modifier_result(
    modifier: Option<ModifierInfo>,
    base: u32,
    player: PlayerView,
    target: PlayerView,
    dice: u8,
) -> Option<(u32, u8, PlayerId)> {
    match modifier {
        Some(m) => modifier_outcome(m, base, player, target, dice),
        None => Some((base, 0u8, -1i32)),
    }
}

/// Dice shown with an action: it is shown the first time it is used in a play.
/// Gives the dice roll shown, the player shown throwing it, and whether the dice was used.
pub open spec fn show_dice(used: bool, roll: u8, roller: PlayerId) -> (u8, PlayerId, bool) {
    if !used && roller != -1 {
        (roll, roller, true)
    } else {
        (0u8, -1i32, used)
    }
}

pub open spec fn single_target_action(roll: u8, roller: PlayerId, t: ActionTargetView) -> PlayActionView {
    PlayActionView { dice_roll: roll, player_dice_id: roller, targets: seq![t] }
}

/// `attacker` hits `victim` once: modifier, dice, the attacker's buffs, then damage.
pub open spec fn attack_hit(
    s: PlayState,
    attacker: int,
    victim: int,
    base: u32,
    modifier: Option<ModifierInfo>,
    element: Element,
    kind: Kind,
    stars: Stars,
    dice: u8,
) -> Option<PlayState> {
    let player = s.players[attacker];
    let target = s.players[victim];
    match modifier_result(modifier, base, player, target, dice) {
        None => None,
        Some((amount, roll, roller)) => {
            let (shown, shown_id, used) = show_dice(s.dice_used, roll, roller);
            match apply_attack_buffs(amount, player.buffs, element, kind, stars, s.buffs_used) {
                None => None,
                Some((hit, buffs_used)) => if damage_defined(target.health, hit) {
                    Some(
                        PlayState {
                            players: s.players.update(
                                victim,
                                target.with_health(damaged_health(target.health, hit)),
                            ),
                            actions: s.actions.push(
                                single_target_action(
                                    shown,
                                    shown_id,
                                    ActionTargetView {
                                        player_id: target.id,
                                        action: ActionTypeView::Attack { amount: hit },
                                        effect: damage_effect_of(element),
                                    },
                                ),
                            ),
                            dice_used: used,
                            buffs_used,
                            ..s
                        },
                    )
                } else {
                    None
                },
            }
        },
    }
}

/// `healed` is healed; the modifier reads `mod_player` and `mod_target`.
pub open spec fn heal_hit(
    s: PlayState,
    mod_player: int,
    mod_target: int,
    healed: int,
    base: u32,
    modifier: Option<ModifierInfo>,
    dice: u8,
) -> Option<PlayState> {
    match modifier_result(modifier, base, s.players[mod_player], s.players[mod_target], dice) {
        None => None,
        Some((amount, roll, roller)) => {
            let (shown, shown_id, used) = show_dice(s.dice_used, roll, roller);
            let h = s.players[healed];
            if heal_defined(h.health, amount) {
                Some(
                    PlayState {
                        players: s.players.update(healed, h.with_health(healed_health(h.health, amount))),
                        actions: s.actions.push(
                            single_target_action(
                                shown,
                                shown_id,
                                ActionTargetView {
                                    player_id: h.id,
                                    action: ActionTypeView::Heal { amount },
                                    effect: heal_effect(),
                                },
                            ),
                        ),
                        dice_used: used,
                        ..s
                    },
                )
            } else {
                None
            }
        },
    }
}

/// `drawer` draws cards from the pile; the modifier reads `mod_player` and `mod_target`.
/// An action is recorded only when at least one card is drawn.
pub open spec fn draw_hit(
    s: PlayState,
    mod_player: int,
    mod_target: int,
    drawer: int,
    base: u32,
    modifier: Option<ModifierInfo>,
    dice: u8,
) -> Option<PlayState> {
    match modifier_result(modifier, base, s.players[mod_player], s.players[mod_target], dice) {
        None => None,
        Some((amount, roll, roller)) => {
            let n = give_count(s.pile.len(), amount as usize);
            let d = s.players[drawer];
            let drawn = s.pile.take(n as int);
            let s2 = PlayState {
                players: s.players.update(drawer, with_cards(d, drawn)),
                pile: s.pile.skip(n as int),
                ..s
            };
            if n > 0 {
                let (shown, shown_id, used) = show_dice(s.dice_used, roll, roller);
                Some(
                    PlayState {
                        actions: s.actions.push(
                            single_target_action(
                                shown,
                                shown_id,
                                ActionTargetView {
                                    player_id: d.id,
                                    action: ActionTypeView::Draw { cards: card_ids(drawn) },
                                    effect: Seq::empty(),
                                },
                            ),
                        ),
                        dice_used: used,
                        ..s2
                    },
                )
            } else {
                Some(s2)
            }
        },
    }
}

/// State reached after the hits of a multi-hit card on `victim`, with the targets of its action.
pub open spec fn multi_hits(
    s: PlayState,
    attacker: int,
    victim: int,
    attacks: Seq<u32>,
    element: Element,
    kind: Kind,
    stars: Stars,
) -> Option<(PlayState, Seq<ActionTargetView>)>
    decreases attacks.len(),
{
    if attacks.len() == 0 {
        Some((s, Seq::empty()))
    } else {
        match multi_hits(s, attacker, victim, attacks.drop_last(), element, kind, stars) {
            None => None,
            Some((s1, hits)) => {
                let target = s1.players[victim];
                match apply_attack_buffs(
                    attacks.last(),
                    s1.players[attacker].buffs,
                    element,
                    kind,
                    stars,
                    s1.buffs_used,
                ) {
                    None => None,
                    Some((hit, buffs_used)) => if damage_defined(target.health, hit) {
                        Some(
                            (
                                PlayState {
                                    players: s1.players.update(
                                        victim,
                                        target.with_health(damaged_health(target.health, hit)),
                                    ),
                                    buffs_used,
                                    ..s1
                                },
                                hits.push(
                                    ActionTargetView {
                                        player_id: target.id,
                                        action: ActionTypeView::Attack { amount: hit },
                                        effect: damage_effect_of(element),
                                    },
                                ),
                            ),
                        )
                    } else {
                        None
                    },
                }
            },
        }
    }
}

/// What a card does to each of its targets.
pub enum TargetStep {
    Attack { base: u32, modifier: Option<ModifierInfo>, element: Element, kind: Kind, stars: Stars, dice: u8 },
    MultiHit { attacks: Seq<u32>, element: Element, kind: Kind, stars: Stars },
    Heal { base: u32, modifier: Option<ModifierInfo>, dice: u8 },
    Draw { base: u32, modifier: Option<ModifierInfo>, dice: u8 },
}

/// One target of player `p`: a target that is the player itself stops the play with an error.
pub open spec fn target_step(step: TargetStep, p: int, s: PlayState, t: usize) -> Option<PlayState> {
    if s.error is Some {
        Some(s)
    } else if t == p {
        Some(s.with_error(PlayError::TargetIsPlayer))
    } else {
        match step {
            TargetStep::Attack { base, modifier, element, kind, stars, dice } => attack_hit(
                s,
                p,
                t as int,
                base,
                modifier,
                element,
                kind,
                stars,
                dice,
            ),
            TargetStep::MultiHit { attacks, element, kind, stars } => match multi_hits(
                s,
                p,
                t as int,
                attacks,
                element,
                kind,
                stars,
            ) {
                None => None,
                Some((s1, hits)) => Some(
                    PlayState {
                        actions: s1.actions.push(
                            PlayActionView { dice_roll: 0u8, player_dice_id: -1i32, targets: hits },
                        ),
                        ..s1
                    },
                ),
            },
            TargetStep::Heal { base, modifier, dice } => heal_hit(s, t as int, p, t as int, base, modifier, dice),
            TargetStep::Draw { base, modifier, dice } => draw_hit(s, t as int, t as int, t as int, base, modifier, dice),
        }
    }
}

/// The step applied to each target in order. `None` when some arithmetic overflows.
pub open spec fn fold_targets(step: TargetStep, p: int, s: PlayState, targets: Seq<usize>) -> Option<PlayState>
    decreases targets.len(),
{
    if targets.len() == 0 {
        Some(s)
    } else {
        match fold_targets(step, p, s, targets.drop_last()) {
            None => None,
            Some(s1) => target_step(step, p, s1, targets.last()),
        }
    }
}

pub proof fn lemma_fold_targets_prefix(step: TargetStep, p: int, s: PlayState, targets: Seq<usize>, i: int)
    requires
        0 <= i <= targets.len(),
        fold_targets(step, p, s, targets) is Some,
    ensures
        fold_targets(step, p, s, targets.take(i)) is Some,
    decreases targets.len(),
{
    if i == targets.len() {
        assert(targets.take(i) =~= targets);
    } else {
        lemma_fold_targets_prefix(step, p, s, targets.drop_last(), i);
        assert(targets.drop_last().take(i) =~= targets.take(i));
    }
}

pub proof fn lemma_fold_targets_step(step: TargetStep, p: int, s: PlayState, targets: Seq<usize>, i: int)
    requires
        0 <= i < targets.len(),
    ensures
        fold_targets(step, p, s, targets.take(i + 1)) == match fold_targets(step, p, s, targets.take(i)) {
            None => None,
            Some(s1) => target_step(step, p, s1, targets[i]),
        },
{
    assert(targets.take(i + 1).drop_last() =~= targets.take(i));
}

pub proof fn lemma_fold_targets_error(step: TargetStep, p: int, s: PlayState, targets: Seq<usize>, i: int, s1: PlayState)
    requires
        0 <= i <= targets.len(),
        fold_targets(step, p, s, targets.take(i)) == Some(s1),
        s1.error is Some,
    ensures
        fold_targets(step, p, s, targets) == Some(s1),
    decreases targets.len(),
{
    if i == targets.len() {
        assert(targets.take(i) =~= targets);
    } else {
        assert(targets.drop_last().take(i) =~= targets.take(i));
        lemma_fold_targets_error(step, p, s, targets.drop_last(), i, s1);
    }
}

/// The players other than `p`, in order, among `n` players.
pub open spec fn others(p: int, n: int) -> Seq<usize> {
    Seq::new((n - 1) as nat, |j: int| if j < p { j as usize } else { (j + 1) as usize })
}

/// The player holds a "target all players" buff.
pub open spec fn has_target_all(buffs: Seq<Rc<BuffInfo>>) -> bool {
    exists|i: int| 0 <= i < buffs.len() && buffs[i].is_target_all_spec()
}

/// `min(max(min, value), max)`.
pub open spec fn spec_clamp(min: int, max: int, value: int) -> int {
    spec_min(spec_max(min, value), max)
}

/// Number of targets a card expects (`None`: the given targets are ignored and any count is accepted).
pub open spec fn expected_target_count(no_targets: bool, tt: TargetType, given: nat) -> Option<int> {
    if no_targets {
        Some(0)
    } else {
        match tt {
            TargetType::Single => Some(spec_clamp(1, 5, 1)),
            TargetType::Multiple { max } => Some(spec_clamp(1, 5, spec_clamp(1, max as int, given as int))),
            TargetType::All => None,
        }
    }
}

/// The number of targets given is the one expected.
pub open spec fn target_count_accepted(no_targets: bool, tt: TargetType, given: nat) -> bool {
    match expected_target_count(no_targets, tt, given) {
        None => true,
        Some(e) => given == e,
    }
}

/// A card only heals: it takes no targets.
pub open spec fn heal_only(card: Card) -> bool {
    card.get_heal() > 0 && card.get_attack() == 0
}

} // verus!

verus! {

pub proof fn lemma_apply_attack_buffs_prefix(
    amount: u32,
    buffs: Seq<Rc<BuffInfo>>,
    e: Element,
    k: Kind,
    s: Stars,
    used: Set<usize>,
    i: int,
)
    requires
        0 <= i <= buffs.len(),
        apply_attack_buffs(amount, buffs, e, k, s, used) is Some,
    ensures
        apply_attack_buffs(amount, buffs.take(i), e, k, s, used) is Some,
    decreases buffs.len(),
{
    if i == buffs.len() {
        assert(buffs.take(i) =~= buffs);
    } else {
        lemma_apply_attack_buffs_prefix(amount, buffs.drop_last(), e, k, s, used, i);
        assert(buffs.drop_last().take(i) =~= buffs.take(i));
    }
}

pub proof fn lemma_multi_hits_prefix(
    s: PlayState,
    attacker: int,
    victim: int,
    attacks: Seq<u32>,
    element: Element,
    kind: Kind,
    stars: Stars,
    i: int,
)
    requires
        0 <= i <= attacks.len(),
        multi_hits(s, attacker, victim, attacks, element, kind, stars) is Some,
    ensures
        multi_hits(s, attacker, victim, attacks.take(i), element, kind, stars) is Some,
    decreases attacks.len(),
{
    if i == attacks.len() {
        assert(attacks.take(i) =~= attacks);
    } else {
        lemma_multi_hits_prefix(s, attacker, victim, attacks.drop_last(), element, kind, stars, i);
        assert(attacks.drop_last().take(i) =~= attacks.take(i));
    }
}


pub proof fn lemma_multi_hits_keeps(
    s: PlayState,
    attacker: int,
    victim: int,
    attacks: Seq<u32>,
    element: Element,
    kind: Kind,
    stars: Stars,
)
    requires
        0 <= victim < s.players.len(),
        multi_hits(s, attacker, victim, attacks, element, kind, stars) is Some,
    ensures
        ({
            let (s1, hits) = multi_hits(s, attacker, victim, attacks, element, kind, stars).unwrap();
            &&& s1.error == s.error
            &&& s1.dice_used == s.dice_used
            &&& s1.actions == s.actions
            &&& s1.pile == s.pile
            &&& s1.players.len() == s.players.len()
        }),
    decreases attacks.len(),
{
    if attacks.len() > 0 {
        lemma_multi_hits_keeps(s, attacker, victim, attacks.drop_last(), element, kind, stars);
    }
}


/// What an attacking card does to each target.
pub open spec fn attack_step(card: Card, dice: u8) -> TargetStep {
    match card {
        Card::MultiHit(c) => TargetStep::MultiHit {
            attacks: c.attacks@,
            element: card.get_element(),
            kind: card.get_kind(),
            stars: card.get_stars(),
        },
        _ => TargetStep::Attack {
            base: card.get_attack(),
            modifier: card.get_attack_modifier(),
            element: card.get_element(),
            kind: card.get_kind(),
            stars: card.get_stars(),
            dice,
        },
    }
}

/// The card attacks (when it has an attack value or an attack modifier): each target in order,
/// and first the player itself for a card that targets both.
pub open spec fn attack_phase(card: Card, p: int, targets: Seq<usize>, dice: u8, s: PlayState) -> Option<PlayState> {
    if card.get_attack() > 0 || card.get_attack_modifier() is Some {
        match card {
            Card::TargetBoth(_) => match attack_hit(
                s,
                p,
                p,
                card.get_attack(),
                card.get_attack_modifier(),
                card.get_element(),
                card.get_kind(),
                card.get_stars(),
                dice,
            ) {
                None => None,
                Some(s1) => fold_targets(attack_step(card, dice), p, s1, targets),
            },
            _ => fold_targets(attack_step(card, dice), p, s, targets),
        }
    } else {
        Some(s)
    }
}

/// The card heals the player (when it has a heal value or a heal modifier);
/// a card that targets both heals each target first.
pub open spec fn heal_phase(card: Card, p: int, targets: Seq<usize>, dice: u8, s: PlayState) -> Option<PlayState> {
    if s.error is Some {
        Some(s)
    } else if card.get_heal() > 0 || card.get_heal_modifier() is Some {
        match card {
            Card::TargetBoth(_) => match fold_targets(
                TargetStep::Heal { base: card.get_heal(), modifier: card.get_heal_modifier(), dice },
                p,
                s,
                targets,
            ) {
                None => None,
                Some(s1) => if s1.error is Some {
                    Some(s1)
                } else {
                    heal_hit(s1, p, p, p, card.get_heal(), card.get_heal_modifier(), dice)
                },
            },
            _ => heal_hit(s, p, p, p, card.get_heal(), card.get_heal_modifier(), dice),
        }
    } else {
        Some(s)
    }
}

/// The player draws (when the card has a draw value or a draw modifier);
/// with a card that targets both, each target draws first.
pub open spec fn draw_phase(card: Card, p: int, targets: Seq<usize>, dice: u8, s: PlayState) -> Option<PlayState> {
    if s.error is Some {
        Some(s)
    } else if card.get_draw() > 0 || card.get_draw_modifier() is Some {
        match card {
            Card::TargetBoth(_) => match fold_targets(
                TargetStep::Draw { base: card.get_draw(), modifier: card.get_draw_modifier(), dice },
                p,
                s,
                targets,
            ) {
                None => None,
                Some(s1) => if s1.error is Some {
                    Some(s1)
                } else {
                    draw_hit(s1, p, p, p, card.get_draw(), card.get_draw_modifier(), dice)
                },
            },
            _ => draw_hit(s, p, p, p, card.get_draw(), card.get_draw_modifier(), dice),
        }
    } else {
        Some(s)
    }
}

/// The targets a card acts on: every other player when it targets all players
/// (or the player holds a "target all" buff), else the targets given.
pub open spec fn effective_targets(
    tt: TargetType,
    players: Seq<PlayerView>,
    p: int,
    targets: Seq<usize>,
) -> Seq<usize> {
    if tt == TargetType::All || has_target_all(players[p].buffs) {
        others(p, players.len() as int)
    } else {
        targets
    }
}

/// Play of a basic, multi-hit or target-both card with one dice roll:
/// target check, then attack, heal and draw.
pub open spec fn default_play(card: Card, p: int, targets: Seq<usize>, dice: u8, s0: PlayState) -> Option<PlayState> {
    if !target_count_accepted(heal_only(card), card.get_target_type(), targets.len()) {
        Some(s0.with_error(PlayError::InvalidTargetCount))
    } else {
        let ts = effective_targets(card.get_target_type(), s0.players, p, targets);
        match attack_phase(card, p, ts, dice, s0) {
            None => None,
            Some(s1) => match heal_phase(card, p, ts, dice, s1) {
                None => None,
                Some(s2) => draw_phase(card, p, ts, dice, s2),
            },
        }
    }
}

} // verus!
