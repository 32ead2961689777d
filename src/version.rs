//! Versions of four parts, `a.b.c.d`, each part from 0 to 255.

use vstd::prelude::*;
use crate::lexer::chars_of;
use crate::text::{decimal, parse_unsigned, parse_usize, push_decimal, push_str, split_chars, split_on};
use core::cmp::Ordering;

verus! {

#[derive(Copy, Clone, Eq, Ord)]
pub struct Version {
    pub versionBytes: [u8; 4],
    pub versionHash: u32,
}

/// The number a part writes, if it is one from 0 to 255.
pub open spec fn part_value(p: Seq<char>) -> Option<int> {
    match parse_unsigned(p, usize::MAX as int) {
        Some(n) => if n <= 255 {
            Some(n)
        } else {
            None
        },
        None => None,
    }
}

/// The four parts of a version written as `s`.
pub open spec fn version_parts(s: Seq<char>) -> Option<Seq<int>> {
    let parts = split_on(s, '.');
    if parts.len() == 4 && (forall|i: int| 0 <= i < 4 ==> #[trigger] part_value(parts[i]) is Some) {
        Some(Seq::new(4, |i: int| part_value(parts[i])->0))
    } else {
        None
    }
}

pub open spec fn hash_of(v: Seq<int>) -> int {
    v[0] * 16777216 + v[1] * 65536 + v[2] * 256 + v[3]
}

impl Version {
    /// Reads `a.b.c.d`: exactly four parts, each a number from 0 to 255.
    pub fn parse(string: &String) -> (r: Result<Version, String>)
        ensures
            match version_parts(string@) {
                Some(v) => r matches Ok(x) && x.versionBytes@ == Seq::new(
                    4,
                    |i: int| v[i] as u8,
                ) && x.versionHash == hash_of(v),
                None => r is Err,
            },
    {
        let chars = chars_of(string.as_str());
        let parts = split_chars(&chars, '.');
        let mut v: [u32; 4] = [0, 0, 0, 0];
        let mut k: usize = 0;
        while k < parts.len()
            invariant
                chars@ == string@,
                parts@.len() == split_on(string@, '.').len(),
                forall|j: int| 0 <= j < parts@.len() ==> #[trigger] parts@[j]@ == split_on(string@, '.')[j],
                k <= parts@.len(),
                k <= 4,
                forall|j: int| 0 <= j < k ==> part_value(split_on(string@, '.')[j]) == Some(#[trigger] v@[j] as int),
            decreases parts@.len() - k,
        {
            match parse_usize(parts[k].as_slice()) {
                Some(n) => {
                    if n > 255 {
                        assert(part_value(split_on(string@, '.')[k as int]) is None);
                        return Err("Max value of part of version must be less then 256".to_string());
                    }
                    if k >= 4 {
                        return Err(
                            "Version is too long, version should have 4 parts like *.*.*.*".to_string(),
                        );
                    }
                    v[k] = n as u32;
                },
                None => {
                    assert(part_value(split_on(string@, '.')[k as int]) is None);
                    return Err("Can not parse version".to_string());
                },
            }
            k = k + 1;
        }
        if k != 4 {
            return Err("Version is too short, version should have 4 parts like *.*.*.*".to_string());
        }
        let hash = v[0] * 16777216 + v[1] * 65536 + v[2] * 256 + v[3];
        let r = Version { versionBytes: [v[0] as u8, v[1] as u8, v[2] as u8, v[3] as u8], versionHash: hash };
        proof {
            let vp = version_parts(string@)->0;
            assert(version_parts(string@) is Some);
            assert(r.versionBytes@ =~= Seq::new(4, |i: int| vp[i] as u8));
        }
        Ok(r)
    }

    /// The version as `a.b.c.d`.
    pub fn print(&self) -> (r: String)
        ensures
            r@ == decimal(self.versionBytes@[0] as nat) + "."@ + decimal(self.versionBytes@[1] as nat)
                + "."@ + decimal(self.versionBytes@[2] as nat) + "."@ + decimal(
                self.versionBytes@[3] as nat,
            ),
    {
        let mut r = String::new();
        push_decimal(&mut r, self.versionBytes[0] as usize);
        push_str(&mut r, ".");
        push_decimal(&mut r, self.versionBytes[1] as usize);
        push_str(&mut r, ".");
        push_decimal(&mut r, self.versionBytes[2] as usize);
        push_str(&mut r, ".");
        push_decimal(&mut r, self.versionBytes[3] as usize);
        r
    }
}

impl PartialEq for Version {
    fn eq(&self, other: &Version) -> (r: bool) {
        self.versionHash == other.versionHash
    }
}

impl vstd::std_specs::cmp::PartialEqSpecImpl for Version {
    open spec fn obeys_eq_spec() -> bool {
        true
    }

    open spec fn eq_spec(&self, other: &Version) -> bool {
        self.versionHash == other.versionHash
    }
}

impl PartialOrd for Version {
    fn partial_cmp(&self, other: &Version) -> (r: Option<Ordering>) {
        if self.versionHash < other.versionHash {
            Some(Ordering::Less)
        } else if self.versionHash > other.versionHash {
            Some(Ordering::Greater)
        } else {
            Some(Ordering::Equal)
        }
    }
}

impl vstd::std_specs::cmp::PartialOrdSpecImpl for Version {
    open spec fn obeys_partial_cmp_spec() -> bool {
        true
    }

    open spec fn partial_cmp_spec(&self, other: &Version) -> Option<Ordering> {
        if self.versionHash < other.versionHash {
            Some(Ordering::Less)
        } else if self.versionHash > other.versionHash {
            Some(Ordering::Greater)
        } else {
            Some(Ordering::Equal)
        }
    }
}

} // verus!
