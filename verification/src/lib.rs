//! Verified core of DualLink, a Windows network adapter manager: PowerShell
//! script construction, ping and PowerShell output interpretation, the
//! automatic failover state machine and the log text formats.

pub mod text;
pub mod json;
pub mod clock;
pub mod calendar;
pub mod logger;
pub mod network;
pub mod monitor;
pub mod instance;
