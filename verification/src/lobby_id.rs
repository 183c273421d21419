//! New lobby ids: short random strings of upper-case letters and digits, drawn again while the id
//! drawn is already taken.
use vstd::prelude::*;
use crate::lobby::{LobbyId, LOBBY_ID_LEN};

verus! {

/// Number of ids drawn before giving up.
pub const LOBBY_ID_ATTEMPTS: usize = 10;

/// A character of lobby ids: an upper-case letter other than `O`, or a digit.
pub open spec fn is_lobby_id_char(c: char) -> bool {
    ('A' <= c <= 'Z' && c != 'O') || ('0' <= c <= '9')
}

/// A well-formed lobby id: `LOBBY_ID_LEN` characters of lobby ids.
pub open spec fn is_lobby_id(id: Seq<char>) -> bool {
    &&& id.len() == LOBBY_ID_LEN
    &&& forall|i: int| 0 <= i < id.len() ==> is_lobby_id_char(#[trigger] id[i])
}

/// The characters of lobby ids, in order: the upper-case letters but `O`, then the digits.
pub fn lobby_id_chars() -> (r: Vec<char>)
    ensures
        r.len() == 35,
        forall|i: int| 0 <= i < r.len() ==> is_lobby_id_char(#[trigger] r@[i]),
{
    let mut r: Vec<char> = Vec::new();
    let mut b: u8 = 65;
    while b <= 90
        invariant
            65 <= b <= 91,
            r.len() == (if b <= 79 { b - 65 } else { b - 66 }),
            forall|i: int| 0 <= i < r.len() ==> is_lobby_id_char(#[trigger] r@[i]),
        decreases 91 - b,
    {
        let c = b as char;
        if b != 79 {
            r.push(c);
            assert(r@[r.len() - 1] == c);
        }
        b = b + 1;
    }
    let mut d: u8 = 48;
    while d <= 57
        invariant
            48 <= d <= 58,
            r.len() == 25 + (d - 48),
            forall|i: int| 0 <= i < r.len() ==> is_lobby_id_char(#[trigger] r@[i]),
        decreases 58 - d,
    {
        let c = d as char;
        r.push(c);
        assert(r@[r.len() - 1] == c);
        d = d + 1;
    }
    r
}

/// `nanoid::format(nanoid::rngs::default, alphabet, size)`: `size` characters drawn at random
/// from `alphabet` with the operating system's random source. The function panics when the alphabet
/// has more than 255 characters, and does not return when it is empty or when `size` is 0 (with an
/// alphabet whose length is not a power of two); it counts the id's length in bytes, so the
/// characters are ASCII here. Which characters are drawn is not stated.
#[verifier::external_body]
fn nanoid_format(alphabet: &Vec<char>, size: usize) -> (r: String)
    requires
        0 < alphabet.len() <= 255,
        0 < size <= usize::MAX / 8,
        forall|i: int| 0 <= i < alphabet.len() ==> (#[trigger] alphabet@[i] as u32) < 128,
    ensures
        r@.len() == size,
        forall|i: int| 0 <= i < size ==> alphabet@.contains(#[trigger] r@[i]),
{
    nanoid::format(nanoid::rngs::default, alphabet.as_slice(), size)
}

/// A random lobby id.
pub fn random_lobby_id() -> (r: LobbyId)
    ensures
        is_lobby_id(r@),
{
    let alphabet = lobby_id_chars();
    assert forall|i: int| 0 <= i < alphabet.len() implies (#[trigger] alphabet@[i] as u32) < 128 by {
        assert(is_lobby_id_char(alphabet@[i]));
    }
    let id = nanoid_format(&alphabet, LOBBY_ID_LEN);
    assert forall|i: int| 0 <= i < id@.len() implies is_lobby_id_char(#[trigger] id@[i]) by {
        assert(alphabet@.contains(id@[i]));
    }
    id
}

/// A new lobby id: random ids are drawn until `taken` says one is free, at most
/// `LOBBY_ID_ATTEMPTS` times. `taken` gives `None` when it could not check an id.
pub fn generate_lobby_id<F: Fn(&String) -> Option<bool>>(taken: F) -> (r: Result<LobbyId, String>)
    requires
        forall|id: &String| #[trigger] taken.requires((id,)),
    ensures
        match r {
            Ok(id) => is_lobby_id(id@) && taken.ensures((&id,), Some(false)),
            Err(e) => {
                ||| e@ == "Could not check existing lobbies"@ && exists|id: &String| #[trigger] taken.ensures((id,), None)
                ||| e@ == "Unable to generate new lobby id !"@ && exists|ids: Seq<String>| {
                    &&& ids.len() == LOBBY_ID_ATTEMPTS
                    &&& forall|k: int| 0 <= k < ids.len() ==> #[trigger] taken.ensures((&ids[k],), Some(true))
                }
            },
        },
{
    let mut i: usize = 0;
    let ghost mut drawn: Seq<String> = Seq::empty();
    while i < LOBBY_ID_ATTEMPTS
        invariant
            i <= LOBBY_ID_ATTEMPTS,
            drawn.len() == i,
            forall|id: &String| #[trigger] taken.requires((id,)),
            forall|k: int| 0 <= k < drawn.len() ==> #[trigger] taken.ensures((&drawn[k],), Some(true)),
        decreases LOBBY_ID_ATTEMPTS - i,
    {
        let id = random_lobby_id();
        match taken(&id) {
            None => {
                return Err(String::from_str("Could not check existing lobbies"));
            },
            Some(false) => {
                return Ok(id);
            },
            Some(true) => {},
        }
        proof {
            drawn = drawn.push(id);
            assert(drawn[drawn.len() - 1] == id);
        }
        i = i + 1;
    }
    Err(String::from_str("Unable to generate new lobby id !"))
}

} // verus!
