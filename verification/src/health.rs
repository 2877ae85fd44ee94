//! The health of a backend and its one-byte encoding.

use vstd::prelude::*;

verus! {

/// What is currently known of a backend.
#[derive(Debug, Clone, Copy, PartialEq, Eq, Structural)]
pub enum Health {
    /// The backend may be picked.
    Healthy,
    /// Not set by the proxy itself; a backend in this state is not picked.
    Unhealthy,
    /// An attempt on the backend failed; it is not picked.
    Probe,
    /// Taken out of service.
    Disabled,
}

impl Health {
    /// The byte that stands for a health state.
    pub open spec fn encoding(self) -> u8 {
        match self {
            Health::Healthy => 0,
            Health::Unhealthy => 1,
            Health::Probe => 2,
            Health::Disabled => 3,
        }
    }

    /// The health state that a byte stands for. Bytes outside the encoding count as disabled.
    pub open spec fn decoding(v: u8) -> Health {
        if v == 0 {
            Health::Healthy
        } else if v == 1 {
            Health::Unhealthy
        } else if v == 2 {
            Health::Probe
        } else {
            Health::Disabled
        }
    }

    /// The name under which a health state is reported.
    pub open spec fn label(self) -> Seq<char> {
        match self {
            Health::Healthy => "Healthy"@,
            Health::Unhealthy => "Unhealthy"@,
            Health::Probe => "Probe"@,
            Health::Disabled => "Disabled"@,
        }
    }

    /// The byte that stands for this health state.
    pub fn as_u8(self) -> (v: u8)
        ensures
            v == self.encoding(),
            v == 0 <==> self == Health::Healthy,
            v == 1 <==> self == Health::Unhealthy,
            v == 2 <==> self == Health::Probe,
            v == 3 <==> self == Health::Disabled,
    {
        match self {
            Health::Healthy => 0,
            Health::Unhealthy => 1,
            Health::Probe => 2,
            Health::Disabled => 3,
        }
    }

    /// The name under which this health state is reported.
    pub fn as_str(&self) -> (s: &'static str)
        ensures
            s@ == self.label(),
            *self == Health::Healthy ==> s@ == "Healthy"@,
            *self == Health::Unhealthy ==> s@ == "Unhealthy"@,
            *self == Health::Probe ==> s@ == "Probe"@,
            *self == Health::Disabled ==> s@ == "Disabled"@,
    {
        match self {
            Health::Healthy => "Healthy",
            Health::Unhealthy => "Unhealthy",
            Health::Probe => "Probe",
            Health::Disabled => "Disabled",
        }
    }
}

impl From<u8> for Health {
    fn from(v: u8) -> (h: Self) {
        match v {
            0 => Health::Healthy,
            1 => Health::Unhealthy,
            2 => Health::Probe,
            3 => Health::Disabled,
            _ => Health::Disabled,
        }
    }
}

impl vstd::std_specs::convert::FromSpecImpl<u8> for Health {
    open spec fn obeys_from_spec() -> bool {
        true
    }

    open spec fn from_spec(v: u8) -> Self {
        Health::decoding(v)
    }
}

/// Decoding the byte of a health state gives that state back.
pub proof fn decoding_inverts_encoding(h: Health)
    ensures
        Health::decoding(h.encoding()) == h,
{
}

/// A byte is read as healthy exactly if it is the byte that stands for healthy: no corrupt byte
/// puts a backend into service.
pub proof fn only_the_healthy_byte_is_healthy(v: u8)
    ensures
        Health::decoding(v) == Health::Healthy <==> v == Health::Healthy.encoding(),
{
}

/// Different health states are reported under different names.
pub proof fn labels_are_distinct(a: Health, b: Health)
    ensures
        a.label() == b.label() <==> a == b,
{
    reveal_strlit("Healthy");
    reveal_strlit("Unhealthy");
    reveal_strlit("Probe");
    reveal_strlit("Disabled");
    assert(Health::Healthy.label()[0] == 'H');
    assert(Health::Unhealthy.label()[0] == 'U');
    assert(Health::Probe.label()[0] == 'P');
    assert(Health::Disabled.label()[0] == 'D');
}

/// Every byte is read in one way: 0 as healthy, 1 as unhealthy, 2 as on probation, and 3 like every
/// other byte as disabled.
pub proof fn every_byte_has_its_state(v: u8)
    ensures
        Health::decoding(v) == Health::Healthy <==> v == 0,
        Health::decoding(v) == Health::Unhealthy <==> v == 1,
        Health::decoding(v) == Health::Probe <==> v == 2,
        Health::decoding(v) == Health::Disabled <==> v >= 3,
        <Health as vstd::std_specs::convert::FromSpec<u8>>::from_spec(v) == Health::decoding(v),
{
}

/// Every state is written as its own byte and reported under its own name.
pub proof fn every_state_has_its_byte_and_name(h: Health)
    ensures
        h == Health::Healthy ==> h.encoding() == 0 && h.label() == "Healthy"@,
        h == Health::Unhealthy ==> h.encoding() == 1 && h.label() == "Unhealthy"@,
        h == Health::Probe ==> h.encoding() == 2 && h.label() == "Probe"@,
        h == Health::Disabled ==> h.encoding() == 3 && h.label() == "Disabled"@,
{
}

} // verus!
