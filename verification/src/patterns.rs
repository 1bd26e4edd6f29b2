//! The names that observers give to what they see.

use vstd::prelude::*;

verus! {

/// A kind of attack.
#[derive(Debug, Clone, Copy, PartialEq, Eq, Structural)]
pub enum AttackPattern {
    /// Packets are being captured.
    PacketTheft,
    /// Somebody sits between the peers.
    ManInTheMiddle,
    /// Old traffic is sent again.
    ReplayAttack,
    /// The protocol is violated on purpose.
    ProtocolViolation,
    /// The traffic is unusual.
    AnomalousTraffic,
    /// Connections flood in.
    ConnectionFlood,
    /// Access without permission.
    UnauthorizedAccess,
    /// Data is carried off.
    DataExfiltration,
    /// Timing is measured.
    TimingAttack,
    /// Something else that is suspicious.
    SuspiciousActivity,
}

impl AttackPattern {
    /// The text that describes the pattern.
    pub open spec fn description_text(self) -> Seq<char> {
        match self {
            AttackPattern::PacketTheft => "Possible packet theft or network sniffing detected"@,
            AttackPattern::ManInTheMiddle => "Potential Man-in-the-Middle attack detected"@,
            AttackPattern::ReplayAttack => "Replay attack pattern detected"@,
            AttackPattern::ProtocolViolation => "Protocol violation or fuzzing attempt"@,
            AttackPattern::AnomalousTraffic => "Unusual traffic pattern detected"@,
            AttackPattern::ConnectionFlood => "Connection flooding or DDoS attempt"@,
            AttackPattern::UnauthorizedAccess => "Unauthorized access attempt"@,
            AttackPattern::DataExfiltration => "Possible data exfiltration pattern"@,
            AttackPattern::TimingAttack => "Timing-based attack detected"@,
            AttackPattern::SuspiciousActivity => "Suspicious activity detected"@,
        }
    }

    /// The text that describes the pattern.
    pub fn description(&self) -> (r: &'static str)
        ensures
            r@ == self.description_text(),
    {
        match self {
            AttackPattern::PacketTheft => "Possible packet theft or network sniffing detected",
            AttackPattern::ManInTheMiddle => "Potential Man-in-the-Middle attack detected",
            AttackPattern::ReplayAttack => "Replay attack pattern detected",
            AttackPattern::ProtocolViolation => "Protocol violation or fuzzing attempt",
            AttackPattern::AnomalousTraffic => "Unusual traffic pattern detected",
            AttackPattern::ConnectionFlood => "Connection flooding or DDoS attempt",
            AttackPattern::UnauthorizedAccess => "Unauthorized access attempt",
            AttackPattern::DataExfiltration => "Possible data exfiltration pattern",
            AttackPattern::TimingAttack => "Timing-based attack detected",
            AttackPattern::SuspiciousActivity => "Suspicious activity detected",
        }
    }
}

/// How serious a threat is, from nothing to critical.
#[derive(Debug, Clone, Copy, PartialEq, Eq, PartialOrd, Ord, Structural)]
pub enum ThreatLevel {
    /// No threat.
    Clear,
    /// Slightly suspicious.
    Low,
    /// To be watched.
    Medium,
    /// Action is recommended.
    High,
    /// Action is required.
    Critical,
}

impl ThreatLevel {
    /// The text that describes the level.
    pub open spec fn description_text(self) -> Seq<char> {
        match self {
            ThreatLevel::Clear => "No threat detected"@,
            ThreatLevel::Low => "Low-level suspicious activity"@,
            ThreatLevel::Medium => "Medium threat - monitor closely"@,
            ThreatLevel::High => "High threat - consider blocking"@,
            ThreatLevel::Critical => "Critical threat - immediate action required"@,
        }
    }

    /// The text that describes the level.
    pub fn description(&self) -> (r: &'static str)
        ensures
            r@ == self.description_text(),
    {
        match self {
            ThreatLevel::Clear => "No threat detected",
            ThreatLevel::Low => "Low-level suspicious activity",
            ThreatLevel::Medium => "Medium threat - monitor closely",
            ThreatLevel::High => "High threat - consider blocking",
            ThreatLevel::Critical => "Critical threat - immediate action required",
        }
    }
}

/// A kind of error that an observer counts per connection.
#[derive(Debug, Clone, Copy, PartialEq, Eq, Structural)]
pub enum ErrorType {
    /// A checksum did not match.
    Crc,
    /// The protocol was violated.
    Protocol,
    /// A flag looked suspicious.
    SuspiciousFlag,
}

} // verus!
