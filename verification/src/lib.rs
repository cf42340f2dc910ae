//! Verified core of the QueenUI bot-fleet runner: protocol framing, the
//! runner's credential and idempotency ledger, automation ownership
//! bookkeeping, game-telemetry aggregation and the trusted engine store's
//! admission rules.

mod text;
pub mod order;
pub mod keyed;
pub mod outside;
pub mod hex;
pub mod protocol;
pub mod ledger;
pub mod ledger_laws;
pub mod telemetry;
pub mod telemetry_laws;
pub mod game;
pub mod game_laws;
pub mod game_step;
pub mod events;
pub mod storage;
pub mod ownership;
pub mod commands;
pub mod redaction_laws;
pub mod engine_store;
pub mod identity;
pub mod lifecycle;
pub mod challenge;
pub mod public_url;
pub mod fleet;
pub mod scorebook;
