//! Device selection: pick a device from a listing by index, by id, or by
//! platform prefix.

use vstd::prelude::*;

use crate::text::{ascii_lower, dec_value, is_numeric, lower_spec, parse_u64, starts_with};
use crate::Error;

verus! {

/// One device of a listing.
#[derive(Debug, Clone)]
pub struct Device {
    pub id: String,
    pub name: String,
    pub target_platform: String,
}

/// The device's platform starts with the (lowercase) requested platform,
/// compared case-insensitively.
pub open spec fn device_matches(d: Device, platform: Seq<char>) -> bool {
    platform.is_prefix_of(lower_spec(d.target_platform@))
}

/// The devices matching a platform, in listing order.
pub open spec fn filtered_devices(ds: Seq<Device>, platform: Seq<char>) -> Seq<Device>
    decreases ds.len(),
{
    if ds.len() == 0 {
        Seq::empty()
    } else {
        let rest = filtered_devices(ds.drop_last(), platform);
        if device_matches(ds.last(), platform) {
            rest.push(ds.last())
        } else {
            rest
        }
    }
}

/// The device spec names an index into the (filtered) listing.
pub open spec fn spec_is_index(s: Seq<char>) -> bool {
    is_numeric(s) && dec_value(s) <= usize::MAX
}

/// Select a device: an empty spec auto-selects (the first match under a
/// platform filter, or nothing at all); a numeric spec indexes the filtered
/// listing; any other spec is taken verbatim as a device id.
pub fn select_device(devices: &Vec<Device>, device_spec: &str, platform: Option<&String>) -> (r:
    Result<String, Error>)
    ensures
        ({
            let ds = match platform {
                Some(p) => filtered_devices(devices@, p@),
                None => devices@,
            };
            if platform is Some && ds.len() == 0 {
                r matches Err(e) && e matches Error::NoMatchingDevice(p) && Some(&p) == platform
            } else if device_spec@.len() == 0 {
                match platform {
                    Some(_) => r matches Ok(id) && id@ == ds[0].id@,
                    None => r matches Ok(id) && id@.len() == 0,
                }
            } else if spec_is_index(device_spec@) {
                if dec_value(device_spec@) < ds.len() {
                    r matches Ok(id) && id@ == ds[dec_value(device_spec@) as int].id@
                } else {
                    r == Err::<String, Error>(Error::DeviceIndexOutOfRange)
                }
            } else {
                r matches Ok(id) && id@ == device_spec@
            }
        }),
{
    // indices into `devices` of the platform matches, in order
    let mut picks: Vec<usize> = Vec::new();
    let use_filter = platform.is_some();
    match platform {
        Some(p) => {
            let n = devices.len();
            let mut i: usize = 0;
            proof {
                assert(filtered_devices(devices@.take(0), p@) =~= Seq::<Device>::empty());
            }
            while i < n
                invariant
                    n == devices.len(),
                    platform == Some(p),
                    0 <= i <= n,
                    picks@.len() == filtered_devices(devices@.take(i as int), p@).len(),
                    forall|k: int|
                        0 <= k < picks@.len() ==> #[trigger] picks@[k] < i && devices@[
                            picks@[k] as int
                        ] == filtered_devices(devices@.take(i as int), p@)[k],
                decreases n - i,
            {
                let low = ascii_lower(devices[i].target_platform.as_str());
                let ghost prev = picks@;
                let ghost fprev = filtered_devices(devices@.take(i as int), p@);
                if starts_with(low.as_str(), p.as_str()) {
                    picks.push(i);
                }
                proof {
                    let dv = devices@;
                    assert(dv.take(i + 1).drop_last() =~= dv.take(i as int));
                    assert(dv.take(i + 1).last() == dv[i as int]);
                }
                i += 1;
            }
            proof {
                assert(devices@.take(n as int) =~= devices@);
            }
            if picks.len() == 0 {
                return Err(Error::NoMatchingDevice(p.clone()));
            }
        },
        None => {},
    }
    let slen = device_spec.unicode_len();
    if slen == 0 {
        if use_filter {
            let i0 = picks[0];
            return Ok(devices[i0].id.clone());
        }
        return Ok(String::new());
    }
    match parse_u64(device_spec) {
        Some(v) => {
            if v > usize::MAX as u64 {
                // too large for an index: taken verbatim as a device id
                return Ok(device_spec.to_owned());
            }
            let limit = match platform {
                Some(_) => picks.len(),
                None => devices.len(),
            };
            if v < limit as u64 {
                let idx = v as usize;
                match platform {
                    Some(_) => {
                        let pi = picks[idx];
                        Ok(devices[pi].id.clone())
                    },
                    None => Ok(devices[idx].id.clone()),
                }
            } else {
                Err(Error::DeviceIndexOutOfRange)
            }
        },
        None => Ok(device_spec.to_owned()),
    }
}

} // verus!
