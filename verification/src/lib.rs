//! Home automation logic: Honeywell 5816 radio frames, garbage pickup
//! calendars, the automation web server's routing, Bluetooth helpers and the
//! credential provider's bookkeeping.

pub mod message;
pub mod bench;
pub mod dsp;
pub mod frame;
pub mod scan;
pub mod schedule;
pub mod server;
pub mod homekey;
