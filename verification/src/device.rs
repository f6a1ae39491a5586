//! Device arguments: `TYPE:PATH`, naming the kind of a VirtIO device and the
//! file that backs it.

use vstd::prelude::*;
use vstd::string::*;

verus! {

/// The kinds of VirtIO device that can be attached.
#[derive(Clone, Copy, Debug, PartialEq, Eq, Structural)]
pub enum VirtIODeviceID {
    Block,
    Network,
}

/// A device to attach: its kind and the path of its backing file.
#[derive(Clone, Debug, PartialEq, Eq)]
pub struct DeviceConfig {
    pub dev_type: VirtIODeviceID,
    pub path: String,
}

/// Why a device argument was refused.
#[derive(Clone, Debug, PartialEq, Eq)]
pub enum DeviceConfigError {
    /// The part before the first `:` names no known kind of device.
    UnknownType(String),
    /// A known kind of device with no `:` and path after it.
    MissingPath,
}

/// The index of the first `:` of `s` at or after `from`, or the length of
/// `s` where there is none.
pub open spec fn colon_from(s: Seq<char>, from: int) -> int
    decreases s.len() - from,
{
    if from >= s.len() {
        s.len() as int
    } else if s[from] == ':' {
        from
    } else {
        colon_from(s, from + 1)
    }
}

/// The kind of device that `name` names.
pub open spec fn device_kind(name: Seq<char>) -> Option<VirtIODeviceID> {
    if name == "virtio-block"@ {
        Some(VirtIODeviceID::Block)
    } else if name == "virtio-network"@ {
        Some(VirtIODeviceID::Network)
    } else {
        None
    }
}

/// `colon_from` lies between `from` and the end, and no `:` comes before it.
proof fn lemma_colon_from(s: Seq<char>, from: int)
    requires
        0 <= from <= s.len(),
    ensures
        from <= colon_from(s, from) <= s.len(),
        colon_from(s, from) < s.len() ==> s[colon_from(s, from)] == ':',
        forall|k: int| from <= k < colon_from(s, from) ==> s[k] != ':',
    decreases s.len() - from,
{
    if from < s.len() && s[from] != ':' {
        lemma_colon_from(s, from + 1);
    }
}

/// The index of the first `:` of `s` at or after `from`, as `colon_from`
/// says.
fn find_colon(s: &str, n: usize, from: usize) -> (r: usize)
    requires
        n == s@.len(),
        from <= n,
    ensures
        r == colon_from(s@, from as int),
{
    let mut i = from;
    proof {
        lemma_colon_from(s@, from as int);
    }
    while i < n && s.get_char(i) != ':'
        invariant
            from <= i <= n,
            n == s@.len(),
            colon_from(s@, from as int) == colon_from(s@, i as int),
        decreases n - i,
    {
        i = i + 1;
    }
    i
}

/// Whether the characters `lo .. hi` of `s` spell `word`.
fn spells(s: &str, lo: usize, hi: usize, word: &str) -> (r: bool)
    requires
        lo <= hi <= s@.len(),
    ensures
        r == (s@.subrange(lo as int, hi as int) == word@),
{
    let n = word.unicode_len();
    if hi - lo != n {
        return false;
    }
    let mut k: usize = 0;
    while k < n
        invariant
            k <= n,
            n == word@.len(),
            hi - lo == n,
            lo <= hi <= s@.len(),
            forall|j: int| 0 <= j < k ==> s@[lo + j] == word@[j],
        decreases n - k,
    {
        if s.get_char(lo + k) != word.get_char(k) {
            proof {
                assert(s@.subrange(lo as int, hi as int)[k as int] != word@[k as int]);
            }
            return false;
        }
        k = k + 1;
    }
    proof {
        assert(s@.subrange(lo as int, hi as int) =~= word@);
    }
    true
}

impl DeviceConfig {
    /// Parses `TYPE:PATH`: `TYPE` is the text before the first `:`, either
    /// `virtio-block` or `virtio-network`; the path is the text after it, up
    /// to the next `:` if there is one.
    pub fn from_str(s: &str) -> (r: Result<DeviceConfig, DeviceConfigError>)
        ensures
            ({
                let c = colon_from(s@, 0);
                let name = s@.subrange(0, c);
                match r {
                    Ok(d) => device_kind(name) == Some(d.dev_type) && c < s@.len() && d.path@ == s@.subrange(
                        c + 1,
                        colon_from(s@, c + 1),
                    ),
                    Err(DeviceConfigError::UnknownType(t)) => device_kind(name) is None && t@ == name,
                    Err(DeviceConfigError::MissingPath) => device_kind(name) is Some && c == s@.len(),
                }
            }),
    {
        let n = s.unicode_len();
        let c = find_colon(s, n, 0);
        proof {
            lemma_colon_from(s@, 0);
        }
        let dev_type = if spells(s, 0, c, "virtio-block") {
            VirtIODeviceID::Block
        } else if spells(s, 0, c, "virtio-network") {
            VirtIODeviceID::Network
        } else {
            return Err(DeviceConfigError::UnknownType(s.substring_char(0, c).to_owned()));
        };
        if c == n {
            return Err(DeviceConfigError::MissingPath);
        }
        let end = find_colon(s, n, c + 1);
        proof {
            lemma_colon_from(s@, c + 1);
        }
        Ok(DeviceConfig { dev_type, path: s.substring_char(c + 1, end).to_owned() })
    }
}

} // verus!
