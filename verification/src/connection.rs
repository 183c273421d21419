//! A player's WebSocket connection to its game, as a state machine: the time of the client's last
//! heartbeat is the state; what arrives on the connection, or the heartbeat timer, is the event; the
//! step says what to do.
use vstd::prelude::*;

verus! {

/// How often the server pings the client, in milliseconds.
pub const HEARTBEAT_INTERVAL_MS: u64 = 5000;

/// How long the client may stay silent before it is disconnected, in milliseconds.
pub const CLIENT_TIMEOUT_MS: u64 = 10000;

/// What happened on the connection.
#[derive(Debug)]
pub enum WsEvent {
    /// The client pinged.
    Ping,
    /// The client answered a ping.
    Pong,
    /// The client sent a text: one of its actions, in JSON.
    Text(String),
    /// The client sent binary data.
    Binary,
    /// The client closed the connection.
    Close,
    /// The client's stream failed.
    StreamError,
    /// The client's stream ended.
    StreamEnd,
    /// The game sent a message for the client.
    ServerMessage(String),
    /// The heartbeat timer ticked.
    Tick,
}

/// What to do about an event.
#[derive(Debug)]
pub enum WsAction {
    /// Answer the client's ping.
    Pong,
    /// Nothing.
    Nothing,
    /// Handle the client's text.
    Handle(String),
    /// Warn that the client sent binary data.
    WarnBinary,
    /// Send the game's message to the client.
    Forward(String),
    /// Ping the client.
    Ping,
    /// Close the connection with the client's reason.
    CloseWithReason,
    /// Close the connection without a reason.
    Close,
}

/// The state of a connection: when the client last showed it was alive, in milliseconds.
#[derive(Debug)]
pub struct Connection {
    pub last_heartbeat_ms: u64,
}

impl Connection {
    /// A connection opened at `now_ms`.
    pub fn new(now_ms: u64) -> (r: Connection)
        ensures
            r.last_heartbeat_ms == now_ms,
    {
        Connection { last_heartbeat_ms: now_ms }
    }

    /// What to do about `event`, which happened at `now_ms`: a ping or pong of the client counts as
    /// a heartbeat; at a tick, a client silent for more than `CLIENT_TIMEOUT_MS` is disconnected,
    /// and any other is pinged.
    pub fn step(&mut self, event: WsEvent, now_ms: u64) -> (r: WsAction)
        requires
            old(self).last_heartbeat_ms <= now_ms,
        ensures
            final(self).last_heartbeat_ms == (match event {
                WsEvent::Ping | WsEvent::Pong => now_ms,
                _ => old(self).last_heartbeat_ms,
            }),
            match event {
                WsEvent::Ping => r is Pong,
                WsEvent::Pong => r is Nothing,
                WsEvent::Text(t) => r matches WsAction::Handle(u) && u@ == t@,
                WsEvent::Binary => r is WarnBinary,
                WsEvent::Close => r is CloseWithReason,
                WsEvent::StreamError | WsEvent::StreamEnd => r is Close,
                WsEvent::ServerMessage(m) => r matches WsAction::Forward(u) && u@ == m@,
                WsEvent::Tick => if now_ms - old(self).last_heartbeat_ms > CLIENT_TIMEOUT_MS {
                    r is Close
                } else {
                    r is Ping
                },
            },
    {
        match event {
            WsEvent::Ping => {
                self.last_heartbeat_ms = now_ms;
                WsAction::Pong
            },
            WsEvent::Pong => {
                self.last_heartbeat_ms = now_ms;
                WsAction::Nothing
            },
            WsEvent::Text(t) => WsAction::Handle(t),
            WsEvent::Binary => WsAction::WarnBinary,
            WsEvent::Close => WsAction::CloseWithReason,
            WsEvent::StreamError | WsEvent::StreamEnd => WsAction::Close,
            WsEvent::ServerMessage(m) => WsAction::Forward(m),
            WsEvent::Tick => {
                if now_ms - self.last_heartbeat_ms > CLIENT_TIMEOUT_MS {
                    WsAction::Close
                } else {
                    WsAction::Ping
                }
            },
        }
    }
}

} // verus!
