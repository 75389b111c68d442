//! KaoBot's household ledger: the rules behind the Telegram bot.
//!
//! Amounts are held in satang (hundredths of a baht) as integers.
pub mod text;
pub mod money;
pub mod number;
pub mod parser;
pub mod ledger;
pub mod payment;
pub mod replies;
pub mod clock;
pub mod reports;
pub mod slip;
pub mod bot;
pub mod supabase;
