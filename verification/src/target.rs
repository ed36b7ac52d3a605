use vstd::prelude::*;
use vstd::string::StringSliceAdditionalSpecFns;

use crate::error::SolhatError;

verus! {

/// A computed sky position for a target body: the parallactic rotation it
/// induces and the altitude and azimuth it was derived from, all in
/// microdegrees. The ephemeris that produces these values is an external
/// collaborator; the pipeline only carries them.
#[derive(Debug, Clone, Copy, PartialEq, Eq, Structural)]
pub struct TargetPosition {
    pub rotation: i64,
    pub altitude: i64,
    pub azimuth: i64,
}

impl TargetPosition {
    /// The zero position a targetless (equatorially mounted) run uses.
    pub fn zero() -> (r: TargetPosition)
        ensures
            r.rotation == 0,
            r.altitude == 0,
            r.azimuth == 0,
    {
        TargetPosition { rotation: 0, altitude: 0, azimuth: 0 }
    }
}

/// The celestial body frames are registered against; `NoTarget` means an
/// equatorial mount with no field rotation to undo.
#[derive(Debug, Clone, Copy, PartialEq, Eq, Structural)]
pub enum Target {
    Sun,
    Moon,
    NoTarget,
}

/// A byte mapped to upper case where it is an ASCII lower-case letter.
pub open spec fn spec_upper_byte(b: u8) -> u8 {
    if 97 <= b <= 122 {
        (b - 32) as u8
    } else {
        b
    }
}

/// The bytes of a name, upper-cased.
pub open spec fn spec_upper(s: Seq<u8>) -> Seq<u8> {
    Seq::new(s.len(), |i: int| spec_upper_byte(s[i]))
}

/// What parsing a target name yields: the three recognized names, compared
/// after folding ASCII letters to upper case (the names themselves are ASCII;
/// folding is deliberately ASCII-only so the contract stays an exact function
/// of the bytes), and an error for anything else.
pub open spec fn spec_target_from(s: Seq<u8>) -> Result<Target, SolhatError> {
    let u = spec_upper(s);
    if u == seq![77u8, 79u8, 79u8, 78u8] {
        Ok(Target::Moon)
    } else if u == seq![83u8, 85u8, 78u8] {
        Ok(Target::Sun)
    } else if u == seq![78u8, 79u8, 78u8, 69u8] {
        Ok(Target::NoTarget)
    } else {
        Err(SolhatError::InvalidTarget)
    }
}

impl Target {
    /// Parse a target body name, ignoring ASCII case.
    pub fn from(s: &str) -> (r: Result<Target, SolhatError>)
        ensures
            r == spec_target_from(s.spec_bytes()),
    {
        let bytes: &[u8] = s.as_bytes();
        let n = bytes.len();
        let mut up: Vec<u8> = Vec::new();
        let mut i: usize = 0;
        while i < n
            invariant
                i <= n,
                n == s.spec_bytes().len(),
                bytes@ == s.spec_bytes(),
                up@.len() == i,
                forall|k: int| 0 <= k < i ==> up@[k] == spec_upper_byte(bytes@[k]),
            decreases n - i,
        {
            let b = bytes[i];
            let ub: u8 = if 97 <= b && b <= 122 {
                b - 32
            } else {
                b
            };
            up.push(ub);
            i += 1;
        }
        proof {
            assert(up@ =~= spec_upper(s.spec_bytes()));
        }
        if up.len() == 4 && up[0] == 77 && up[1] == 79 && up[2] == 79 && up[3] == 78 {
            proof {
                assert(up@ =~= seq![77u8, 79u8, 79u8, 78u8]);
            }
            Ok(Target::Moon)
        } else if up.len() == 3 && up[0] == 83 && up[1] == 85 && up[2] == 78 {
            proof {
                assert(!(up@ =~= seq![77u8, 79u8, 79u8, 78u8]));
                assert(up@ =~= seq![83u8, 85u8, 78u8]);
            }
            Ok(Target::Sun)
        } else if up.len() == 4 && up[0] == 78 && up[1] == 79 && up[2] == 78 && up[3] == 69 {
            proof {
                assert(!(up@ =~= seq![77u8, 79u8, 79u8, 78u8]));
                assert(!(up@ =~= seq![83u8, 85u8, 78u8]));
                assert(up@ =~= seq![78u8, 79u8, 78u8, 69u8]);
            }
            Ok(Target::NoTarget)
        } else {
            proof {
                assert(!(up@ =~= seq![77u8, 79u8, 79u8, 78u8]));
                assert(!(up@ =~= seq![83u8, 85u8, 78u8]));
                assert(!(up@ =~= seq![78u8, 79u8, 78u8, 69u8]));
            }
            Err(SolhatError::InvalidTarget)
        }
    }
}

} // verus!
