//! Card definitions, as read from the cards file, and the cards made from them.
use vstd::prelude::*;
use std::rc::Rc;
use crate::buffs::BuffInfo;
use crate::card::{
    BasicCard, Card, CardId, Element, Kind, MultiActionCard, MultiHitCard, PearthCard, PlayersRollsDiceCard, Stars,
    TargetBothCard, TargetType,
};
use crate::modifiers::ModifierInfo;
use crate::special_cards::PlayersRollsDiceCardAction;

verus! {

/// Values of a basic (or target-both) card.
#[derive(Debug)]
pub struct BasicCardData {
    pub attack: u32,
    pub heal: u32,
    pub draw: u32,
    pub attack_modifier: Option<ModifierInfo>,
    pub heal_modifier: Option<ModifierInfo>,
    pub draw_modifier: Option<ModifierInfo>,
    pub targets: TargetType,
}

/// Values of a multi-hit card.
#[derive(Debug)]
pub struct MultiHitCardData {
    pub attacks: Vec<u32>,
    pub heal: u32,
    pub draw: u32,
    pub heal_modifier: Option<ModifierInfo>,
    pub draw_modifier: Option<ModifierInfo>,
}

/// Values of a multi-action card, one per action.
#[derive(Debug)]
pub struct MultiActionCardData {
    pub actions: usize,
    pub targets: Vec<TargetType>,
    pub attacks: Vec<u32>,
    pub heals: Vec<u32>,
    pub draws: Vec<u32>,
    pub attack_modifiers: Vec<Option<ModifierInfo>>,
    pub heal_modifiers: Vec<Option<ModifierInfo>>,
    pub draw_modifiers: Vec<Option<ModifierInfo>>,
}

/// Values of a dice-rolling card.
#[derive(Debug)]
pub struct PlayersRollsDiceCardData {
    pub attack: bool,
    pub heal: bool,
    pub draw: bool,
    pub targets: TargetType,
    pub dice_action: PlayersRollsDiceCardAction,
}

/// The variant of a card definition, with its values.
#[derive(Debug)]
pub enum CardVariant {
    BasicCard(BasicCardData),
    MultiHitCard(MultiHitCardData),
    TargetBothCard(BasicCardData),
    MultiActionCard(MultiActionCardData),
    PlayersRollsDiceCard(PlayersRollsDiceCardData),
    PearthCard,
}

/// A card definition: the values common to all cards and those of its variant.
#[derive(Debug)]
pub struct CardInfo {
    pub id: CardId,
    pub name: String,
    pub element: Element,
    pub stars: Stars,
    pub kind: Kind,
    pub desc: String,
    pub buffs: Vec<BuffInfo>,
    pub variant: CardVariant,
}

/// The card's buffs are the definition's buffs, in order.
pub open spec fn same_buffs(card_buffs: Seq<Rc<BuffInfo>>, buffs: Seq<BuffInfo>) -> bool {
    &&& card_buffs.len() == buffs.len()
    &&& forall|i: int| 0 <= i < buffs.len() ==> *(#[trigger] card_buffs[i]) == buffs[i]
}

/// Each buff, shared.
fn share_buffs(buffs: Vec<BuffInfo>) -> (r: Vec<Rc<BuffInfo>>)
    ensures
        same_buffs(r@, buffs@),
{
    let mut buffs = buffs;
    let ghost b0 = buffs@;
    let mut r: Vec<Rc<BuffInfo>> = Vec::new();
    while buffs.len() > 0
        invariant
            buffs@ == b0.skip(r.len() as int),
            r.len() <= b0.len(),
            same_buffs(r@, b0.take(r.len() as int)),
        decreases buffs.len(),
    {
        let b = buffs.remove(0);
        proof {
            assert(b0.skip(r.len() as int)[0] == b0[r.len() as int]);
            assert(b0.skip(r.len() as int).subrange(1, b0.skip(r.len() as int).len() as int) =~= b0.skip(r.len() + 1));
        }
        let ghost old_r = r@;
        r.push(Rc::new(b));
        proof {
            assert forall|i: int| 0 <= i < r.len() implies *(#[trigger] r@[i]) == b0.take(r.len() as int)[i] by {
                if i < old_r.len() {
                    assert(r@[i] == old_r[i]);
                    assert(b0.take(old_r.len() as int)[i] == b0[i]);
                }
            }
        }
    }
    proof {
        assert(b0.take(r.len() as int) =~= b0);
    }
    r
}

/// The card `r` is the card that the definition `info` describes: the definition's values, of its
/// variant, with its buffs.
pub open spec fn made_from(info: CardInfo, r: Card) -> bool {
    &&& r.get_id() == info.id
    &&& r.spec_name() == info.name@
    &&& r.spec_description() == info.desc@
    &&& r.get_element() == info.element
    &&& r.get_stars() == info.stars
    &&& r.get_kind() == info.kind
    &&& match (info.variant, r) {
        (CardVariant::BasicCard(d), Card::Basic(c)) => c.attack == d.attack && c.heal == d.heal && c.draw == d.draw
            && c.attack_modifier == d.attack_modifier && c.heal_modifier == d.heal_modifier && c.draw_modifier
            == d.draw_modifier && c.target_type == d.targets && same_buffs(c.buffs@, info.buffs@),
        (CardVariant::TargetBothCard(d), Card::TargetBoth(c)) => c.attack == d.attack && c.heal == d.heal && c.draw
            == d.draw && c.attack_modifier == d.attack_modifier && c.heal_modifier == d.heal_modifier
            && c.draw_modifier == d.draw_modifier && c.target_type == d.targets && same_buffs(c.buffs@, info.buffs@),
        (CardVariant::MultiHitCard(d), Card::MultiHit(c)) => c.attacks@ == d.attacks@ && c.heal == d.heal && c.draw
            == d.draw && c.heal_modifier == d.heal_modifier && c.draw_modifier == d.draw_modifier && same_buffs(
            c.buffs@,
            info.buffs@,
        ),
        (CardVariant::MultiActionCard(d), Card::MultiAction(c)) => c.actions == d.actions && c.target_types@
            == d.targets@ && c.attacks@ == d.attacks@ && c.heals@ == d.heals@ && c.draws@ == d.draws@
            && c.attack_modifiers@ == d.attack_modifiers@ && c.heal_modifiers@ == d.heal_modifiers@
            && c.draw_modifiers@ == d.draw_modifiers@ && same_buffs(c.buffs@, info.buffs@),
        (CardVariant::PlayersRollsDiceCard(d), Card::PlayersRollsDice(c)) => c.attack == d.attack && c.heal == d.heal
            && c.draw == d.draw && c.target_type == d.targets && c.dice_action == d.dice_action && same_buffs(
            c.buffs@,
            info.buffs@,
        ),
        (CardVariant::PearthCard, Card::Pearth(_)) => true,
        _ => false,
    }
}

impl CardInfo {
    /// The card this definition describes, of its variant, with its buffs.
    pub fn make_card(self) -> (r: Card)
        ensures
            made_from(self, r),
    {
        let CardInfo { id, name, element, stars, kind, desc, buffs, variant } = self;
        match variant {
            CardVariant::BasicCard(d) => Card::Basic(
                BasicCard {
                    id,
                    name,
                    element,
                    stars,
                    kind,
                    desc,
                    attack: d.attack,
                    heal: d.heal,
                    draw: d.draw,
                    attack_modifier: d.attack_modifier,
                    heal_modifier: d.heal_modifier,
                    draw_modifier: d.draw_modifier,
                    target_type: d.targets,
                    buffs: share_buffs(buffs),
                },
            ),
            CardVariant::MultiHitCard(d) => Card::MultiHit(
                MultiHitCard {
                    id,
                    name,
                    element,
                    stars,
                    kind,
                    desc,
                    attacks: d.attacks,
                    heal: d.heal,
                    draw: d.draw,
                    heal_modifier: d.heal_modifier,
                    draw_modifier: d.draw_modifier,
                    buffs: share_buffs(buffs),
                },
            ),
            CardVariant::TargetBothCard(d) => Card::TargetBoth(
                TargetBothCard {
                    id,
                    name,
                    element,
                    stars,
                    kind,
                    desc,
                    attack: d.attack,
                    heal: d.heal,
                    draw: d.draw,
                    attack_modifier: d.attack_modifier,
                    heal_modifier: d.heal_modifier,
                    draw_modifier: d.draw_modifier,
                    target_type: d.targets,
                    buffs: share_buffs(buffs),
                },
            ),
            CardVariant::MultiActionCard(d) => Card::MultiAction(
                MultiActionCard {
                    id,
                    name,
                    element,
                    stars,
                    kind,
                    desc,
                    actions: d.actions,
                    target_types: d.targets,
                    attacks: d.attacks,
                    attack_modifiers: d.attack_modifiers,
                    heals: d.heals,
                    heal_modifiers: d.heal_modifiers,
                    draws: d.draws,
                    draw_modifiers: d.draw_modifiers,
                    buffs: share_buffs(buffs),
                },
            ),
            CardVariant::PlayersRollsDiceCard(d) => Card::PlayersRollsDice(
                PlayersRollsDiceCard {
                    id,
                    name,
                    element,
                    stars,
                    kind,
                    desc,
                    target_type: d.targets,
                    attack: d.attack,
                    heal: d.heal,
                    draw: d.draw,
                    dice_action: d.dice_action,
                    buffs: share_buffs(buffs),
                },
            ),
            CardVariant::PearthCard => Card::Pearth(PearthCard { id, name, element, stars, kind, desc }),
        }
    }
}

/// The cards of the definitions, in order, the card at position `i` with id `i`.
pub fn make_card_database(infos: Vec<CardInfo>) -> (r: Vec<Rc<Card>>)
    requires
        infos.len() <= i32::MAX,
    ensures
        r.len() == infos.len(),
        forall|i: int| 0 <= i < r.len() ==> (#[trigger] r@[i]).get_id() == i,
        forall|i: int| 0 <= i < r.len() ==> made_from(CardInfo { id: i as CardId, ..infos@[i] }, *#[trigger] r@[i]),
{
    let mut infos = infos;
    let ghost i0 = infos@;
    let mut deck: Vec<Rc<Card>> = Vec::new();
    let mut idx: CardId = 0;
    while infos.len() > 0
        invariant
            i0.len() <= i32::MAX,
            idx == deck.len(),
            deck.len() <= i0.len(),
            infos@ == i0.skip(deck.len() as int),
            forall|i: int| 0 <= i < deck.len() ==> (#[trigger] deck@[i]).get_id() == i,
            forall|i: int| 0 <= i < deck.len() ==> made_from(CardInfo { id: i as CardId, ..i0[i] }, *#[trigger] deck@[i]),
        decreases infos.len(),
    {
        let mut info = infos.remove(0);
        proof {
            assert(i0.skip(deck.len() as int)[0] == i0[deck.len() as int]);
            assert(i0.skip(deck.len() as int).subrange(1, i0.skip(deck.len() as int).len() as int) =~= i0.skip(deck.len() + 1));
        }
        info.id = idx;
        assert(info == (CardInfo { id: deck.len() as CardId, ..i0[deck.len() as int] }));
        idx = idx + 1;
        let card = info.make_card();
        deck.push(Rc::new(card));
        assert(deck@[deck.len() - 1] == Rc::new(card));
    }
    deck
}

} // verus!
