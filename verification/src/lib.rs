use vstd::prelude::*;

pub mod eval;
pub mod utils;
pub mod card;
pub mod buffs;
pub mod modifiers;
pub mod player;
pub mod play_info;
pub mod rng;
pub mod special_cards;
pub mod exchange_card;
pub mod responses;
pub mod game;
pub mod rules;
pub mod play;
pub mod variant_rules;
pub mod variant_play;
pub mod complex_rules;
pub mod complex_play;
pub mod card_play;
pub mod game_ops;
pub mod laws;
pub mod rule_laws;
pub mod card_info;
pub mod prototype;
pub mod lobby;
pub mod server;
pub mod game_manager;
pub mod ids_law;
pub mod server_play;
pub mod cards_law;
pub mod auth;
pub mod web_types;
pub mod lobby_id;
pub mod lobby_store;
pub mod account;
pub mod friends;
pub mod notifications;
pub mod connection;

verus! {
} // verus!
