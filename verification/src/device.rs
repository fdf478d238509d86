//! reMarkable device specs: screen size in pixels and pixel density.
use vstd::prelude::*;

use crate::text::str_eq;

verus! {

#[derive(Debug, Clone, Copy, PartialEq)]
pub struct Device {
    pub key: &'static str,
    pub name: &'static str,
    /// Short edge (portrait).
    pub width_px: u32,
    /// Long edge (portrait).
    pub height_px: u32,
    pub ppi: u32,
}

#[derive(Debug, Clone, PartialEq)]
pub enum DeviceError {
    /// Neither `paper-pro-move` nor `paper-pro`.
    Unknown { key: String },
}

/// The Paper Pro Move: 954 x 1696 px at 264 ppi.
pub open spec fn is_move(d: Device) -> bool {
    &&& d.key@ == "paper-pro-move"@
    &&& d.name@ == "reMarkable Paper Pro Move"@
    &&& d.width_px == 954
    &&& d.height_px == 1696
    &&& d.ppi == 264
}

/// The Paper Pro: 1620 x 2160 px at 229 ppi.
pub open spec fn is_pro(d: Device) -> bool {
    &&& d.key@ == "paper-pro"@
    &&& d.name@ == "reMarkable Paper Pro"@
    &&& d.width_px == 1620
    &&& d.height_px == 2160
    &&& d.ppi == 229
}

pub open spec fn known_device(key: Seq<char>) -> bool {
    key == "paper-pro-move"@ || key == "paper-pro"@
}

/// The device for a config key.
pub fn get_device(key: &str) -> (r: Result<Device, DeviceError>)
    ensures
        key@ == "paper-pro-move"@ ==> (r matches Ok(d) && is_move(d)),
        key@ == "paper-pro"@ ==> (r matches Ok(d) && is_pro(d)),
        !known_device(key@) ==> (r matches Err(DeviceError::Unknown { key: k }) && k@ == key@),
{
    proof {
        reveal_strlit("paper-pro");
        reveal_strlit("paper-pro-move");
        assert("paper-pro"@.len() == 9);
        assert("paper-pro"@ != "paper-pro-move"@);
    }
    if str_eq(key, "paper-pro-move") {
        Ok(Device {
            key: "paper-pro-move",
            name: "reMarkable Paper Pro Move",
            width_px: 954,
            height_px: 1696,
            ppi: 264,
        })
    } else if str_eq(key, "paper-pro") {
        assert(key@ == "paper-pro"@);
        Ok(Device {
            key: "paper-pro",
            name: "reMarkable Paper Pro",
            width_px: 1620,
            height_px: 2160,
            ppi: 229,
        })
    } else {
        Err(DeviceError::Unknown { key: key.to_owned() })
    }
}

} // verus!
