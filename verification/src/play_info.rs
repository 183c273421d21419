use vstd::prelude::*;
use crate::card::CardId;
use crate::player::PlayerId;

verus! {

/// Time the web app takes to show one action target, in milliseconds.
pub const ACTION_TARGET_TIME_MS: u128 = 250;

/// Time the web app takes to show a dice roll, in milliseconds.
pub const DICE_ROLL_TIME_MS: u128 = 1720;

/// The largest time span a `Duration` holds, in whole milliseconds, plus one.
pub const DURATION_LIMIT_MS: u128 = 18446744073709551616000;

/// What happens to the target of an action.
#[derive(Debug)]
#[allow(inconsistent_fields)]
pub enum ActionType {
    Attack { amount: u32 },
    Heal { amount: u32 },
    Draw { cards: Vec<CardId> },
    Discard { cards: Vec<usize> },
    Steal { cards: Vec<CardId> },
}

/// A player affected by an action.
#[derive(Debug)]
pub struct ActionTarget {
    pub player_id: PlayerId,
    pub action: ActionType,
    pub effect: String,
}

/// One action of a played card, with the dice roll shown before it (0 when none).
#[derive(Debug)]
pub struct PlayAction {
    pub dice_roll: u8,
    pub player_dice_id: PlayerId,
    pub targets: Vec<ActionTarget>,
}

/// The actions done by a played card.
#[derive(Debug)]
pub struct PlayInfo {
    pub actions: Vec<PlayAction>,
}

#[allow(inconsistent_fields)]
pub enum ActionTypeView {
    Attack { amount: u32 },
    Heal { amount: u32 },
    Draw { cards: Seq<CardId> },
    Discard { cards: Seq<usize> },
    Steal { cards: Seq<CardId> },
}

pub struct ActionTargetView {
    pub player_id: PlayerId,
    pub action: ActionTypeView,
    pub effect: Seq<char>,
}

pub struct PlayActionView {
    pub dice_roll: u8,
    pub player_dice_id: PlayerId,
    pub targets: Seq<ActionTargetView>,
}

impl View for ActionType {
    type V = ActionTypeView;

    open spec fn view(&self) -> ActionTypeView {
        match self {
            ActionType::Attack { amount } => ActionTypeView::Attack { amount: *amount },
            ActionType::Heal { amount } => ActionTypeView::Heal { amount: *amount },
            ActionType::Draw { cards } => ActionTypeView::Draw { cards: cards@ },
            ActionType::Discard { cards } => ActionTypeView::Discard { cards: cards@ },
            ActionType::Steal { cards } => ActionTypeView::Steal { cards: cards@ },
        }
    }
}

impl View for ActionTarget {
    type V = ActionTargetView;

    open spec fn view(&self) -> ActionTargetView {
        ActionTargetView { player_id: self.player_id, action: self.action@, effect: self.effect@ }
    }
}

pub open spec fn targets_view(targets: Seq<ActionTarget>) -> Seq<ActionTargetView> {
    targets.map_values(|t: ActionTarget| t@)
}

impl View for PlayAction {
    type V = PlayActionView;

    open spec fn view(&self) -> PlayActionView {
        PlayActionView {
            dice_roll: self.dice_roll,
            player_dice_id: self.player_dice_id,
            targets: targets_view(self.targets@),
        }
    }
}

pub open spec fn actions_view(actions: Seq<PlayAction>) -> Seq<PlayActionView> {
    actions.map_values(|a: PlayAction| a@)
}

impl View for PlayInfo {
    type V = Seq<PlayActionView>;

    open spec fn view(&self) -> Seq<PlayActionView> {
        actions_view(self.actions@)
    }
}

/// Time the web app takes to show an action, in milliseconds.
pub open spec fn action_time(a: PlayActionView) -> int {
    (if a.dice_roll > 0 { DICE_ROLL_TIME_MS as int } else { 0 }) + ACTION_TARGET_TIME_MS * a.targets.len()
}

/// Time the web app takes to show the actions, in milliseconds.
pub open spec fn actions_time(actions: Seq<PlayActionView>) -> int
    decreases actions.len(),
{
    if actions.len() == 0 {
        0
    } else {
        actions_time(actions.drop_last()) + action_time(actions.last())
    }
}

pub proof fn lemma_actions_time_monotone(actions: Seq<PlayActionView>, i: int)
    requires
        0 <= i <= actions.len(),
    ensures
        actions_time(actions.take(i)) <= actions_time(actions),
        actions_time(actions) >= 0,
    decreases actions.len(),
{
    if actions.len() > 0 {
        if i < actions.len() {
            lemma_actions_time_monotone(actions.drop_last(), i);
            assert(actions.drop_last().take(i) =~= actions.take(i));
        } else {
            assert(actions.take(i) =~= actions);
            lemma_actions_time_monotone(actions.drop_last(), 0);
        }
    }
}

impl ActionType {
    /// Time the web app takes to show this action on a target, in milliseconds.
    pub fn get_estimated_time(&self) -> (r: u128)
        ensures
            r == ACTION_TARGET_TIME_MS,
    {
        ACTION_TARGET_TIME_MS
    }
}

impl PlayAction {
    /// An action without dice roll (the dice player is -1) and without targets.
    pub fn new() -> (r: Self)
        ensures
            r@ == (PlayActionView { dice_roll: 0, player_dice_id: -1i32, targets: Seq::empty() }),
    {
        let r = Self { dice_roll: 0, player_dice_id: -1, targets: Vec::new() };
        assert(targets_view(r.targets@) =~= Seq::<ActionTargetView>::empty());
        r
    }

    /// Time the web app takes to show the action, in milliseconds:
    /// the dice roll animation when a dice was rolled, then each target.
    pub fn get_estimated_time(&self) -> (r: u128)
        ensures
            r == action_time(self@),
    {
        let mut time: u128 = if self.dice_roll > 0 { DICE_ROLL_TIME_MS } else { 0 };
        let mut i: usize = 0;
        while i < self.targets.len()
            invariant
                i <= self.targets.len(),
                time == (if self.dice_roll > 0 { DICE_ROLL_TIME_MS as int } else { 0 }) + ACTION_TARGET_TIME_MS * i,
            decreases self.targets.len() - i,
        {
            time = time + self.targets[i].action.get_estimated_time();
            i = i + 1;
        }
        time
    }
}

impl PlayInfo {
    /// No actions.
    pub fn new() -> (r: Self)
        ensures
            r@ == Seq::<PlayActionView>::empty(),
    {
        let r = Self { actions: Vec::new() };
        assert(actions_view(r.actions@) =~= Seq::<PlayActionView>::empty());
        r
    }

    /// Estimated amount of time that it will take for the web app to show the actions to the user,
    /// in milliseconds. The total must be a span that a `Duration` holds.
    pub fn get_estimated_time(&self) -> (r: u128)
        requires
            actions_time(self@) < DURATION_LIMIT_MS,
        ensures
            r == actions_time(self@),
    {
        let mut total: u128 = 0;
        let mut i: usize = 0;
        proof {
            lemma_actions_time_monotone(self@, 0);
        }
        while i < self.actions.len()
            invariant
                i <= self.actions.len(),
                total == actions_time(self@.take(i as int)),
                actions_time(self@) < DURATION_LIMIT_MS,
            decreases self.actions.len() - i,
        {
            proof {
                assert(self@.take(i + 1).drop_last() =~= self@.take(i as int));
                lemma_actions_time_monotone(self@, i + 1);
                assert(self@[i as int] == self.actions@[i as int]@);
            }
            total = total + self.actions[i].get_estimated_time();
            i = i + 1;
        }
        proof {
            assert(self@.take(self.actions.len() as int) =~= self@);
        }
        total
    }
}


impl ActionType {
    /// A copy of the action.
    pub fn duplicate(&self) -> (r: ActionType)
        ensures
            r@ == self@,
    {
        match self {
            ActionType::Attack { amount } => ActionType::Attack { amount: *amount },
            ActionType::Heal { amount } => ActionType::Heal { amount: *amount },
            ActionType::Draw { cards } => ActionType::Draw { cards: cards.clone() },
            ActionType::Discard { cards } => ActionType::Discard { cards: cards.clone() },
            ActionType::Steal { cards } => ActionType::Steal { cards: cards.clone() },
        }
    }
}

impl ActionTarget {
    /// A copy of the target.
    pub fn duplicate(&self) -> (r: ActionTarget)
        ensures
            r@ == self@,
    {
        ActionTarget { player_id: self.player_id, action: self.action.duplicate(), effect: self.effect.clone() }
    }
}

impl PlayAction {
    /// A copy of the action.
    pub fn duplicate(&self) -> (r: PlayAction)
        ensures
            r@ == self@,
    {
        let mut targets: Vec<ActionTarget> = Vec::new();
        let mut i: usize = 0;
        while i < self.targets.len()
            invariant
                i <= self.targets.len(),
                targets_view(targets@) == targets_view(self.targets@.take(i as int)),
            decreases self.targets.len() - i,
        {
            let t = self.targets[i].duplicate();
            proof {
                assert(targets_view(targets@.push(t)) =~= targets_view(targets@).push(t@));
                assert(targets_view(self.targets@.take(i + 1)) =~= targets_view(self.targets@.take(i as int)).push(self.targets@[i as int]@));
            }
            targets.push(t);
            i = i + 1;
        }
        assert(self.targets@.take(i as int) =~= self.targets@);
        PlayAction { dice_roll: self.dice_roll, player_dice_id: self.player_dice_id, targets }
    }
}

/// Copies of the actions.
pub fn duplicate_actions(actions: &Vec<PlayAction>) -> (r: Vec<PlayAction>)
    ensures
        actions_view(r@) == actions_view(actions@),
{
    let mut r: Vec<PlayAction> = Vec::new();
    let mut i: usize = 0;
    while i < actions.len()
        invariant
            i <= actions.len(),
            actions_view(r@) == actions_view(actions@.take(i as int)),
        decreases actions.len() - i,
    {
        let a = actions[i].duplicate();
        proof {
            assert(actions_view(r@.push(a)) =~= actions_view(r@).push(a@));
            assert(actions_view(actions@.take(i + 1)) =~= actions_view(actions@.take(i as int)).push(actions@[i as int]@));
        }
        r.push(a);
        i = i + 1;
    }
    assert(actions@.take(i as int) =~= actions@);
    r
}

impl PlayInfo {
    /// A copy of the actions.
    pub fn duplicate(&self) -> (r: PlayInfo)
        ensures
            r@ == self@,
    {
        PlayInfo { actions: duplicate_actions(&self.actions) }
    }
}

} // verus!
