//! Helpers of the save manager that work on names: archive names from file
//! names, item names from inventory ids, and the browser flags for the GPU setting.

use crate::text::str_eq;
use vstd::prelude::*;
use vstd::string::StrSliceExecFns;

verus! {

/// The archive name of a save file: its file name without a final `.sav`.
pub open spec fn archive_name_of(f: Seq<char>) -> Seq<char> {
    if f.len() >= 4 && f.subrange(f.len() - 4, f.len() as int) == ".sav"@ {
        f.subrange(0, f.len() - 4)
    } else {
        f
    }
}

pub fn extract_archive_name(filename: &str) -> (r: &str)
    ensures
        r@ == archive_name_of(filename@),
{
    let n = filename.unicode_len();
    if n >= 4 && str_eq(filename.substring_char(n - 4, n), ".sav") {
        filename.substring_char(0, n - 4)
    } else {
        filename
    }
}

/// The item that an inventory id stands for; `None` for an empty or unknown slot.
pub open spec fn item_name(id: i32) -> Seq<char> {
    match id {
        1 => "AlmondConcentrate"@,
        2 => "BugSpray"@,
        3 => "Camera"@,
        4 => "AlmondWater"@,
        5 => "Chainsaw"@,
        6 => "DivingHelmet"@,
        7 => "EnergyBar"@,
        8 => "Firework"@,
        9 => "Flaregun"@,
        10 => "Flashlight"@,
        11 => "GlowstickBlue"@,
        12 => "GlowStick"@,
        13 => "GlowstickRed"@,
        14 => "GlowstickYellow"@,
        15 => "Juice"@,
        16 => "LiquidPain"@,
        17 => "Rope"@,
        18 => "LiDAR"@,
        19 => "Thermometer"@,
        20 => "Ticket"@,
        21 => "WalkieTalkie"@,
        22 => "MothJelly"@,
        23 => "Crowbar"@,
        24 => "Knife"@,
        25 => "Toy"@,
        _ => "None"@,
    }
}

pub fn map_item_id_to_name(id: i32) -> (r: &'static str)
    ensures
        r@ == item_name(id),
{
    match id {
        1 => "AlmondConcentrate",
        2 => "BugSpray",
        3 => "Camera",
        4 => "AlmondWater",
        5 => "Chainsaw",
        6 => "DivingHelmet",
        7 => "EnergyBar",
        8 => "Firework",
        9 => "Flaregun",
        10 => "Flashlight",
        11 => "GlowstickBlue",
        12 => "GlowStick",
        13 => "GlowstickRed",
        14 => "GlowstickYellow",
        15 => "Juice",
        16 => "LiquidPain",
        17 => "Rope",
        18 => "LiDAR",
        19 => "Thermometer",
        20 => "Ticket",
        21 => "WalkieTalkie",
        22 => "MothJelly",
        23 => "Crowbar",
        24 => "Knife",
        25 => "Toy",
        _ => "None",
    }
}

/// The webview flags: with GPU acceleration turned off, the GPU is disabled;
/// otherwise rasterization on the GPU is forced.
pub open spec fn browser_args(disabled: bool) -> Seq<Seq<char>> {
    if disabled {
        seq!["--disable-gpu"@, "--disable-gpu-sandbox"@, "--disable-software-rasterizer"@]
    } else {
        seq![
            "--disable-gpu-sandbox"@,
            "--disable-software-rasterizer"@,
            "--enable-gpu-rasterization"@,
            "--force-gpu-rasterization"@,
        ]
    }
}

pub fn get_browser_args(disabled: bool) -> (r: Vec<String>)
    ensures
        r@.map_values(|s: String| s@) == browser_args(disabled),
{
    let r = if disabled {
        vec![
            "--disable-gpu".to_owned(),
            "--disable-gpu-sandbox".to_owned(),
            "--disable-software-rasterizer".to_owned(),
        ]
    } else {
        vec![
            "--disable-gpu-sandbox".to_owned(),
            "--disable-software-rasterizer".to_owned(),
            "--enable-gpu-rasterization".to_owned(),
            "--force-gpu-rasterization".to_owned(),
        ]
    };
    assert(r@.map_values(|s: String| s@) =~= browser_args(disabled));
    r
}

} // verus!
