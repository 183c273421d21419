use vstd::prelude::*;
use crate::card::{Element, Kind, Stars};
use crate::eval::{EvalOp, spec_eval, eval_defined};

verus! {

/// Lifetime of a buff granted to a player.
#[derive(Clone, Copy, PartialEq, Eq, Structural, Debug)]
pub enum BuffLifeTime {
    /// Buff is considered used at the end of the turn, regardless if it was used or not.
    UntilNextTurnEnd,
    /// Buff is considered used when used by a card. It does not apply for the next actions in the turn.
    UntilUsed,
}

/// What a buff does.
/// Lists of elements, kinds and stars restrict the cards a buff applies to;
/// an empty list lets every variant through.
#[derive(Debug)]
pub enum BuffType {
    /// Changes the attack value of a card with `op` and `value`.
    Attack { value: u32, op: EvalOp, elements: Vec<Element>, kinds: Vec<Kind>, stars: Vec<Stars> },
    /// Target all players
    TargetAll,
    /// Play all cards in one turn matching the element
    PlayAllCards { elements: Vec<Element>, kinds: Vec<Kind>, stars: Vec<Stars> },
}

/// Buff that changes the attack value of a card.
#[derive(Debug)]
pub struct AttackBuff {
    pub value: u32,
    pub op: EvalOp,
    pub elements: Vec<Element>,
    pub kinds: Vec<Kind>,
    pub stars: Vec<Stars>,
    pub lifetime: BuffLifeTime,
}

/// Buff that makes a card target all the other players.
#[derive(Debug)]
pub struct TargetAllBuff;

/// Buff that lets a player play all the matching cards in one turn.
#[derive(Debug)]
pub struct PlayAllCardsBuff {
    pub elements: Vec<Element>,
    pub kinds: Vec<Kind>,
    pub stars: Vec<Stars>,
}

/// The different buffs that cards can grant.
#[derive(Debug)]
pub enum BuffInfo {
    AttackBuffInfo(AttackBuff),
    TargetAllBuffInfo(TargetAllBuff),
    PlayAllCardsBuffInfo(PlayAllCardsBuff),
}

/// Default operation of an attack buff.
pub fn default_attack_op() -> (r: EvalOp)
    ensures
        r == EvalOp::Add,
{
    EvalOp::Add
}

/// Default lifetime of an attack buff.
pub fn default_lifetime() -> (r: BuffLifeTime)
    ensures
        r == BuffLifeTime::UntilNextTurnEnd,
{
    BuffLifeTime::UntilNextTurnEnd
}

/// An empty filter list accepts everything; otherwise the value must be in the list.
pub open spec fn filter_accepts<T>(list: Seq<T>, x: T) -> bool {
    list.len() == 0 || list.contains(x)
}

fn elements_accept(list: &Vec<Element>, x: Element) -> (r: bool)
    ensures
        r == filter_accepts(list@, x),
{
    if list.len() == 0 {
        return true;
    }
    let mut i: usize = 0;
    while i < list.len()
        invariant
            i <= list.len(),
            forall|j: int| 0 <= j < i ==> list@[j] != x,
        decreases list.len() - i,
    {
        if list[i] == x {
            return true;
        }
        i = i + 1;
    }
    false
}

fn kinds_accept(list: &Vec<Kind>, x: Kind) -> (r: bool)
    ensures
        r == filter_accepts(list@, x),
{
    if list.len() == 0 {
        return true;
    }
    let mut i: usize = 0;
    while i < list.len()
        invariant
            i <= list.len(),
            forall|j: int| 0 <= j < i ==> list@[j] != x,
        decreases list.len() - i,
    {
        if list[i] == x {
            return true;
        }
        i = i + 1;
    }
    false
}

fn stars_accept(list: &Vec<Stars>, x: Stars) -> (r: bool)
    ensures
        r == filter_accepts(list@, x),
{
    if list.len() == 0 {
        return true;
    }
    let mut i: usize = 0;
    while i < list.len()
        invariant
            i <= list.len(),
            forall|j: int| 0 <= j < i ==> list@[j] != x,
        decreases list.len() - i,
    {
        if list[i] == x {
            return true;
        }
        i = i + 1;
    }
    false
}

impl AttackBuff {
    pub fn get_lifetime(&self) -> (r: BuffLifeTime)
        ensures
            r == self.lifetime,
    {
        self.lifetime
    }

    pub fn get_type(&self) -> (r: BuffType)
        ensures
            r matches BuffType::Attack { value, op, elements, kinds, stars } && value == self.value
                && op == self.op && elements@ == self.elements@ && kinds@ == self.kinds@ && stars@
                == self.stars@,
    {
        BuffType::Attack {
            value: self.value,
            op: self.op,
            elements: self.elements.clone(),
            kinds: self.kinds.clone(),
            stars: self.stars.clone(),
        }
    }
}

impl TargetAllBuff {
    pub fn get_type(&self) -> (r: BuffType)
        ensures
            r is TargetAll,
    {
        BuffType::TargetAll
    }
}

impl PlayAllCardsBuff {
    pub fn get_type(&self) -> (r: BuffType)
        ensures
            r matches BuffType::PlayAllCards { elements, kinds, stars } && elements@ == self.elements@
                && kinds@ == self.kinds@ && stars@ == self.stars@,
    {
        BuffType::PlayAllCards {
            elements: self.elements.clone(),
            kinds: self.kinds.clone(),
            stars: self.stars.clone(),
        }
    }
}

impl BuffInfo {
    /// The buff applies to a card of the given element, kind and stars.
    pub open spec fn applies(&self, e: Element, k: Kind, s: Stars) -> bool {
        match self {
            BuffInfo::AttackBuffInfo(a) => filter_accepts(a.elements@, e) && filter_accepts(a.kinds@, k)
                && filter_accepts(a.stars@, s),
            BuffInfo::PlayAllCardsBuffInfo(p) => filter_accepts(p.elements@, e) && filter_accepts(
                p.kinds@,
                k,
            ) && filter_accepts(p.stars@, s),
            BuffInfo::TargetAllBuffInfo(_) => true,
        }
    }

    /// Lifetime of the buff.
    pub open spec fn lifetime(&self) -> BuffLifeTime {
        match self {
            BuffInfo::AttackBuffInfo(a) => a.lifetime,
            _ => BuffLifeTime::UntilNextTurnEnd,
        }
    }

    /// The buff can change `base_value` without overflow.
    pub open spec fn compute_defined(&self, base_value: u32) -> bool {
        match self {
            BuffInfo::AttackBuffInfo(a) => eval_defined(a.op, base_value as int, a.value as int),
            _ => true,
        }
    }

    /// Value obtained when the buff changes `base_value`.
    pub open spec fn computed(&self, base_value: u32) -> int {
        match self {
            BuffInfo::AttackBuffInfo(a) => spec_eval(a.op, base_value as int, a.value as int),
            _ => base_value as int,
        }
    }

    /// The buff makes cards target all the other players.
    pub open spec fn is_target_all_spec(&self) -> bool {
        *self is TargetAllBuffInfo
    }

    /// The buff changes attack values.
    pub open spec fn is_attack(&self) -> bool {
        *self is AttackBuffInfo
    }

    /// What the buff does.
    pub fn get_type(&self) -> (r: BuffType)
        ensures
            match (*self, r) {
                (BuffInfo::AttackBuffInfo(a), BuffType::Attack { value, op, elements, kinds, stars }) =>
                    value == a.value && op == a.op && elements@ == a.elements@ && kinds@ == a.kinds@
                    && stars@ == a.stars@,
                (BuffInfo::TargetAllBuffInfo(_), BuffType::TargetAll) => true,
                (BuffInfo::PlayAllCardsBuffInfo(p), BuffType::PlayAllCards { elements, kinds, stars }) =>
                    elements@ == p.elements@ && kinds@ == p.kinds@ && stars@ == p.stars@,
                _ => false,
            },
    {
        match self {
            BuffInfo::AttackBuffInfo(b) => b.get_type(),
            BuffInfo::TargetAllBuffInfo(b) => b.get_type(),
            BuffInfo::PlayAllCardsBuffInfo(b) => b.get_type(),
        }
    }

    /// How long the buff lasts.
    pub fn get_lifetime(&self) -> (r: BuffLifeTime)
        ensures
            r == self.lifetime(),
    {
        match self {
            BuffInfo::AttackBuffInfo(b) => b.get_lifetime(),
            _ => BuffLifeTime::UntilNextTurnEnd,
        }
    }

    /// The buff changes attack values.
    pub fn is_attack_buff(&self) -> (r: bool)
        ensures
            r == self.is_attack(),
    {
        match self {
            BuffInfo::AttackBuffInfo(_) => true,
            _ => false,
        }
    }

    /// The buff is a "target all players" buff.
    pub fn is_target_all(&self) -> (r: bool)
        ensures
            r == self.is_target_all_spec(),
    {
        match self {
            BuffInfo::TargetAllBuffInfo(_) => true,
            _ => false,
        }
    }

    /// The buff applies to a card of the given element, kind and stars.
    pub fn is_applicable(&self, element: Element, kind: Kind, stars: Stars) -> (r: bool)
        ensures
            r == self.applies(element, kind, stars),
    {
        match self {
            BuffInfo::AttackBuffInfo(b) => elements_accept(&b.elements, element) && kinds_accept(
                &b.kinds,
                kind,
            ) && stars_accept(&b.stars, stars),
            BuffInfo::PlayAllCardsBuffInfo(b) => elements_accept(&b.elements, element)
                && kinds_accept(&b.kinds, kind) && stars_accept(&b.stars, stars),
            BuffInfo::TargetAllBuffInfo(_) => true,
        }
    }

    /// Applies the buff to `base_value`: an attack buff evaluates `base_value op value`,
    /// other buffs give `base_value` back.
    pub fn compute(&self, base_value: u32) -> (r: u32)
        requires
            self.compute_defined(base_value),
        ensures
            r == self.computed(base_value),
    {
        match self {
            BuffInfo::AttackBuffInfo(b) => b.op.eval(base_value, b.value),
            _ => base_value,
        }
    }
}

} // verus!
