//! Transfer and discovery control for peer-to-peer file exchange: the ticket
//! codec, the presence roster, and the transfer registry and orchestration.
pub mod keyed;
pub mod text;
pub mod ticket_codec;
pub mod state;
pub mod discovery;
pub mod transfer;
