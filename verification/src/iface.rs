//! Interface identity: a small ordinal parsed from names like `wg0`.

use vstd::prelude::*;
use vstd::string::StrSliceExecFns;

use crate::numbers::all_digits;
use crate::numbers::digits_val;
use crate::numbers::check_all_digits;
use crate::numbers::parse_int_digits;
use crate::parseutil::string_remove_start;

verus! {

/// A WireGuard interface, identified by the ordinal in its name.
#[derive(Clone, Copy, Debug, PartialEq, Eq, Hash, PartialOrd, Ord, Structural)]
pub struct WireguardInterface(pub u16);

/// Why an interface name was rejected.
#[derive(Clone, Copy, Debug, PartialEq, Eq, Structural)]
pub enum IfaceError {
    /// The name does not start with `wg`.
    NoWgPrefix,
    /// What follows `wg` is not an ordinal that fits sixteen bits.
    BadOrdinal,
}

/// The digits of an ordinal, allowing one leading `+` as Rust's unsigned
/// parsing does.
pub open spec fn ordinal_digits(s: Seq<char>) -> Seq<char> {
    if s.len() > 0 && s[0] == '+' {
        s.subrange(1, s.len() as int)
    } else {
        s
    }
}

/// Is `s` a well-formed ordinal below 2^16?
pub open spec fn ordinal_valid(s: Seq<char>) -> bool {
    let d = ordinal_digits(s);
    d.len() >= 1 && all_digits(d) && digits_val(d) <= u16::MAX
}

/// Does `s` name an interface: `wg` followed by an ordinal?
pub open spec fn iface_valid(s: Seq<char>) -> bool {
    s.len() >= 2 && s.subrange(0, 2) == "wg"@ && ordinal_valid(s.subrange(2, s.len() as int))
}

/// The ordinal of a well-formed interface name.
pub open spec fn iface_ordinal(s: Seq<char>) -> int {
    digits_val(ordinal_digits(s.subrange(2, s.len() as int)))
}

impl WireguardInterface {
    /// Read an interface name: `wg` followed by a sixteen-bit ordinal.
    pub fn from_str(s: &str) -> (r: Result<Self, IfaceError>)
        ensures
            match r {
                Ok(wi) => iface_valid(s@) && wi.0 == iface_ordinal(s@),
                Err(IfaceError::NoWgPrefix) => !(s@.len() >= 2 && s@.subrange(0, 2) == "wg"@),
                Err(IfaceError::BadOrdinal) => s@.len() >= 2 && s@.subrange(0, 2) == "wg"@
                    && !ordinal_valid(s@.subrange(2, s@.len() as int)),
            },
    {
        proof {
            reveal_strlit("wg");
        }
        let rest = match string_remove_start(s, "wg") {
            None => {
                return Err(IfaceError::NoWgPrefix);
            },
            Some(rest) => rest,
        };
        let n = rest.unicode_len();
        let digits = if n > 0 && rest.get_char(0) == '+' {
            rest.substring_char(1, n)
        } else {
            rest.substring_char(0, n)
        };
        proof {
            assert(digits@ =~= ordinal_digits(rest@));
        }
        if digits.unicode_len() == 0 {
            return Err(IfaceError::BadOrdinal);
        }
        if !check_all_digits(digits) {
            return Err(IfaceError::BadOrdinal);
        }
        match parse_int_digits(digits) {
            None => Err(IfaceError::BadOrdinal),
            Some(v) => {
                if v > u16::MAX as u128 {
                    Err(IfaceError::BadOrdinal)
                } else {
                    Ok(WireguardInterface(v as u16))
                }
            },
        }
    }
}

} // verus!
