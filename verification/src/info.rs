//! Single facts about a device that can be asked for by name.
use vstd::prelude::*;
use crate::model::Device;
use crate::text::str_eq;

verus! {

/// A fact about a device.
#[derive(Clone, Debug)]
pub enum Request {
    DeviceName,
}

/// A request name that is not known.
#[derive(Debug)]
pub enum InfoError {
    UnknownRequest(String),
}

/// The text `device-name`.
pub open spec fn k_device_name() -> Seq<char> {
    seq!['d', 'e', 'v', 'i', 'c', 'e', '-', 'n', 'a', 'm', 'e']
}

impl Request {
    /// The request that the name `s` means: `device-name`.
    pub fn from_name(s: &str) -> (r: Result<Request, InfoError>)
        ensures
            r is Ok <==> s@ == k_device_name(),
            r matches Ok(q) ==> q is DeviceName,
            r matches Err(InfoError::UnknownRequest(t)) ==> t@ == s@,
    {
        proof {
            reveal_strlit("device-name");
            assert("device-name"@ =~= k_device_name());
        }
        if str_eq(s, "device-name") {
            Ok(Request::DeviceName)
        } else {
            Err(InfoError::UnknownRequest(crate::text::copy_str(s)))
        }
    }

    /// The answer to this request about `device`.
    pub fn process(&self, device: &Device) -> (r: Result<String, InfoError>)
        ensures
            r matches Ok(t) && match self {
                Request::DeviceName => t@ == device.name@,
            },
    {
        match self {
            Request::DeviceName => Ok(device.name.clone()),
        }
    }
}

} // verus!
