//! The decisions of joining the WiFi network: refusing an empty network
//! name and picking the channel of the configured access point from a scan.

use vstd::prelude::*;

verus! {

/// Why the WiFi connection is not attempted.
#[derive(Debug, Clone, Copy, PartialEq, Eq)]
pub enum WifiError {
    /// No network name was given.
    MissingSsid,
}

/// Refuses an empty network name.
pub fn check_ssid(ssid: &str) -> (r: Result<(), WifiError>)
    ensures
        r == (if ssid@.len() == 0 { Err(WifiError::MissingSsid) } else { Ok::<(), WifiError>(()) }),
{
    if ssid.is_empty() {
        Err(WifiError::MissingSsid)
    } else {
        Ok(())
    }
}

/// An access point found by a scan.
#[derive(Debug)]
pub struct AccessPoint {
    pub ssid: Vec<u8>,
    pub channel: u8,
}

/// Compares two byte strings.
fn same_bytes(a: &[u8], b: &[u8]) -> (r: bool)
    ensures
        r == (a@ == b@),
{
    if a.len() != b.len() {
        return false;
    }
    let mut i: usize = 0;
    while i < a.len()
        invariant
            a@.len() == b@.len(),
            i <= a@.len(),
            forall|k: int| 0 <= k < i ==> a@[k] == b@[k],
        decreases a@.len() - i,
    {
        if a[i] != b[i] {
            return false;
        }
        i += 1;
    }
    assert(a@ =~= b@);
    true
}

/// The channel of the first scanned access point named `ssid`, if any.
pub open spec fn spec_channel(aps: Seq<AccessPoint>, ssid: Seq<u8>) -> Option<u8>
    decreases aps.len(),
{
    if aps.len() == 0 {
        None
    } else if aps[0].ssid@ == ssid {
        Some(aps[0].channel)
    } else {
        spec_channel(aps.drop_first(), ssid)
    }
}

/// Picks the channel to join: that of the first access point in the scan
/// whose name is `ssid`, or none (unknown channel) when the scan did not
/// find it.
pub fn select_channel(aps: &Vec<AccessPoint>, ssid: &[u8]) -> (r: Option<u8>)
    ensures
        r == spec_channel(aps@, ssid@),
        r is None <==> forall|i: int| 0 <= i < aps@.len() ==> (#[trigger] aps@[i]).ssid@ != ssid@,
        r matches Some(c) ==> exists|i: int|
            0 <= i < aps@.len() && (#[trigger] aps@[i]).ssid@ == ssid@ && aps@[i].channel == c
                && forall|j: int| 0 <= j < i ==> (#[trigger] aps@[j]).ssid@ != ssid@,
{
    let mut i: usize = 0;
    assert(aps@.subrange(0, aps@.len() as int) =~= aps@);
    while i < aps.len()
        invariant
            i <= aps@.len(),
            forall|j: int| 0 <= j < i ==> (#[trigger] aps@[j]).ssid@ != ssid@,
            spec_channel(aps@, ssid@) == spec_channel(aps@.subrange(i as int, aps@.len() as int), ssid@),
        decreases aps@.len() - i,
    {
        let ghost rest = aps@.subrange(i as int, aps@.len() as int);
        assert(rest.drop_first() =~= aps@.subrange(i + 1, aps@.len() as int));
        assert(rest[0] == aps@[i as int]);
        if same_bytes(aps[i].ssid.as_slice(), ssid) {
            return Some(aps[i].channel);
        }
        i += 1;
    }
    let ghost rest = aps@.subrange(i as int, aps@.len() as int);
    assert(rest.len() == 0);
    None
}

} // verus!
