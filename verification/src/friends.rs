//! Friendships between accounts: a request from `account1` to `account2` is pending until
//! `account2` accepts or declines it.
use vstd::prelude::*;

verus! {

/// A friend request or friendship, from `account1` to `account2`, with its status.
#[derive(Clone, Copy, Debug, PartialEq, Eq, Structural)]
pub struct Friend {
    pub id: i32,
    pub account1: i32,
    pub account2: i32,
    pub status: i32,
}

/// Status of a request not answered yet.
pub const FRIEND_REQUEST_PENDING: i32 = 0;

/// Status of an accepted request: a friendship.
pub const FRIEND_REQUEST_ACCEPTED: i32 = 1;

/// Status of a declined request.
pub const FRIEND_REQUEST_DECLINED: i32 = 2;

/// The status a request takes when its receiver answers it.
pub fn friend_request_status(accepted: bool) -> (r: i32)
    ensures
        r == if accepted { FRIEND_REQUEST_ACCEPTED } else { FRIEND_REQUEST_DECLINED },
{
    if accepted { FRIEND_REQUEST_ACCEPTED } else { FRIEND_REQUEST_DECLINED }
}

/// The account is one of the two of the request.
pub open spec fn involves(f: Friend, account_id: i32) -> bool {
    f.account1 == account_id || f.account2 == account_id
}

/// The requests of the account that are friendships (`accepted`) or that are not (`!accepted`), in
/// order.
pub open spec fn requests_of(fs: Seq<Friend>, account_id: i32, accepted: bool) -> Seq<Friend>
    decreases fs.len(),
{
    if fs.len() == 0 {
        Seq::empty()
    } else {
        let rest = requests_of(fs.drop_last(), account_id, accepted);
        let f = fs.last();
        if involves(f, account_id) && (f.status == FRIEND_REQUEST_ACCEPTED) == accepted {
            rest.push(f)
        } else {
            rest
        }
    }
}

/// The requests of the account that are friendships, or those that are not.
fn select_requests(friends: &Vec<Friend>, account_id: i32, accepted: bool) -> (r: Vec<Friend>)
    ensures
        r@ == requests_of(friends@, account_id, accepted),
{
    let mut r: Vec<Friend> = Vec::new();
    let mut i: usize = 0;
    while i < friends.len()
        invariant
            i <= friends.len(),
            r@ == requests_of(friends@.take(i as int), account_id, accepted),
        decreases friends.len() - i,
    {
        proof {
            assert(friends@.take(i + 1).drop_last() =~= friends@.take(i as int));
            assert(friends@.take(i + 1).last() == friends@[i as int]);
        }
        let f = friends[i];
        if (f.account1 == account_id || f.account2 == account_id) && (f.status == FRIEND_REQUEST_ACCEPTED) == accepted {
            r.push(f);
        }
        i = i + 1;
    }
    proof {
        assert(friends@.take(i as int) =~= friends@);
    }
    r
}

/// The account's friendships: its accepted requests, sent or received, in order.
pub fn list_friends_for_account(friends: &Vec<Friend>, account_id: i32) -> (r: Vec<Friend>)
    ensures
        r@ == requests_of(friends@, account_id, true),
{
    select_requests(friends, account_id, true)
}

/// The account's requests that are not friendships, sent or received, in order.
pub fn list_friend_requests_for_account(friends: &Vec<Friend>, account_id: i32) -> (r: Vec<Friend>)
    ensures
        r@ == requests_of(friends@, account_id, false),
{
    select_requests(friends, account_id, false)
}

/// The request is a pending one from `sender_id` to `receiver_id`.
pub open spec fn is_pending_request(f: Friend, receiver_id: i32, sender_id: i32) -> bool {
    f.account2 == receiver_id && f.account1 == sender_id && f.status == FRIEND_REQUEST_PENDING
}

/// The first pending request from `sender_id` to `receiver_id`, if any.
pub fn get_friend_request_of_account(friends: &Vec<Friend>, receiver_id: i32, sender_id: i32) -> (r: Option<Friend>)
    ensures
        match r {
            Some(f) => exists|k: int| {
                &&& 0 <= k < friends@.len()
                &&& #[trigger] friends@[k] == f
                &&& is_pending_request(f, receiver_id, sender_id)
                &&& forall|m: int| 0 <= m < k ==> !is_pending_request(#[trigger] friends@[m], receiver_id, sender_id)
            },
            None => forall|k: int| 0 <= k < friends@.len() ==> !is_pending_request(#[trigger] friends@[k], receiver_id, sender_id),
        },
{
    let mut i: usize = 0;
    while i < friends.len()
        invariant
            i <= friends.len(),
            forall|m: int| 0 <= m < i ==> !is_pending_request(#[trigger] friends@[m], receiver_id, sender_id),
        decreases friends.len() - i,
    {
        let f = friends[i];
        if f.account2 == receiver_id && f.account1 == sender_id && f.status == FRIEND_REQUEST_PENDING {
            assert(friends@[i as int] == f);
            return Some(f);
        }
        i = i + 1;
    }
    None
}

/// The pending request from `sender_id` to `receiver_id`, answered: accepted or declined.
pub fn change_friend_request_status(friends: &Vec<Friend>, receiver_id: i32, sender_id: i32, accepted: bool) -> (r: Option<Friend>)
    ensures
        match r {
            Some(g) => exists|k: int| {
                &&& 0 <= k < friends@.len()
                &&& is_pending_request(#[trigger] friends@[k], receiver_id, sender_id)
                &&& forall|m: int| 0 <= m < k ==> !is_pending_request(#[trigger] friends@[m], receiver_id, sender_id)
                &&& g == (Friend { status: if accepted { FRIEND_REQUEST_ACCEPTED } else { FRIEND_REQUEST_DECLINED }, ..friends@[k] })
            },
            None => forall|k: int| 0 <= k < friends@.len() ==> !is_pending_request(#[trigger] friends@[k], receiver_id, sender_id),
        },
{
    match get_friend_request_of_account(friends, receiver_id, sender_id) {
        None => None,
        Some(f) => Some(Friend { status: friend_request_status(accepted), ..f }),
    }
}

} // verus!
