//! Signaling method configuration.
//!
//! Attitude and count methods are independent knobs so a lesson can teach
//! either convention. All four combinations are supported, even though
//! upside-down count with standard attitude is essentially unplayed in
//! practice — the bot must behave sensibly for any configuration a teacher
//! can express.

use vstd::prelude::*;
use crate::auction::str_equals;

verus! {

/// Attitude signal method (partner leads, you signal like/dislike).
#[derive(Debug, Clone, Copy, PartialEq, Eq, Hash, Structural)]
pub enum AttitudeMethod {
    /// High card encourages, low card discourages.
    Standard,
    /// Low card encourages, high card discourages (UDCA).
    UpsideDown,
}

/// Count signal method (declarer leads, you show suit length).
#[derive(Debug, Clone, Copy, PartialEq, Eq, Hash, Structural)]
pub enum CountMethod {
    /// High-low shows an even number of cards, low-high shows odd.
    Standard,
    /// Low-high shows an even number of cards, high-low shows odd.
    UpsideDown,
}

/// The bot's carding agreements. `Default` is standard/standard, matching
/// what Bridge Classroom lessons teach first.
#[derive(Debug, Clone, Copy, PartialEq, Eq, Hash, Structural)]
pub struct SignalConfig {
    /// Attitude method on partner's leads and on discards.
    pub attitude: AttitudeMethod,
    /// Count method on declarer's leads.
    pub count: CountMethod,
}

impl Default for AttitudeMethod {
    fn default() -> (r: AttitudeMethod)
        ensures
            r == AttitudeMethod::Standard,
    {
        AttitudeMethod::Standard
    }
}

impl Default for CountMethod {
    fn default() -> (r: CountMethod)
        ensures
            r == CountMethod::Standard,
    {
        CountMethod::Standard
    }
}

impl Default for SignalConfig {
    fn default() -> (r: SignalConfig)
        ensures
            r == (SignalConfig { attitude: AttitudeMethod::Standard, count: CountMethod::Standard }),
    {
        SignalConfig { attitude: AttitudeMethod::Standard, count: CountMethod::Standard }
    }
}

/// The attitude method a setting names: `upside_down` or `udca` select
/// upside-down; anything else, or no setting, selects standard.
pub open spec fn attitude_of_name(name: Option<Seq<char>>) -> AttitudeMethod {
    match name {
        Some(n) => if n == "upside_down"@ || n == "udca"@ {
            AttitudeMethod::UpsideDown
        } else {
            AttitudeMethod::Standard
        },
        None => AttitudeMethod::Standard,
    }
}

/// The count method a setting names: `upside_down` selects upside-down;
/// anything else, or no setting, selects standard.
pub open spec fn count_of_name(name: Option<Seq<char>>) -> CountMethod {
    match name {
        Some(n) => if n == "upside_down"@ {
            CountMethod::UpsideDown
        } else {
            CountMethod::Standard
        },
        None => CountMethod::Standard,
    }
}

/// The view of an optional string setting.
pub open spec fn name_view(name: Option<&str>) -> Option<Seq<char>> {
    match name {
        Some(n) => Some(n@),
        None => None,
    }
}

impl SignalConfig {
    /// The configuration named by two optional settings, as the frontend
    /// sends them. Unknown or missing settings mean standard.
    pub fn from_names(attitude: Option<&str>, count: Option<&str>) -> (c: SignalConfig)
        ensures
            c.attitude == attitude_of_name(name_view(attitude)),
            c.count == count_of_name(name_view(count)),
    {
        let attitude = match attitude {
            Some(n) => if str_equals(n, "upside_down") || str_equals(n, "udca") {
                AttitudeMethod::UpsideDown
            } else {
                AttitudeMethod::Standard
            },
            None => AttitudeMethod::Standard,
        };
        let count = match count {
            Some(n) => if str_equals(n, "upside_down") {
                CountMethod::UpsideDown
            } else {
                CountMethod::Standard
            },
            None => CountMethod::Standard,
        };
        SignalConfig { attitude, count }
    }
}

} // verus!
