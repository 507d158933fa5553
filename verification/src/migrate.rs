//! The field rules of the one-shot import from lianli-daemon's config:
//! which devices are ours, how its speed entries, temperature commands and
//! static colors map onto this daemon's configuration. (Walking the foreign
//! JSON document happens with the file I/O.)

use vstd::prelude::*;
use vstd::string::{StrSliceExecFns, StringExecFns};
use crate::config::{SensorSpec, SlotSpeed, StaticColor};
use crate::hex::chars_of;

verus! {

/// Whether `n` occurs in `h` at position `i`.
pub open spec fn occurs_at(h: Seq<char>, n: Seq<char>, i: int) -> bool {
    0 <= i && i + n.len() <= h.len() && h.subrange(i, i + n.len()) == n
}

/// Whether `n` occurs anywhere in `h`.
pub open spec fn has_infix(h: Seq<char>, n: Seq<char>) -> bool {
    exists|i: int| #[trigger] occurs_at(h, n, i)
}

/// Whether `n` occurs in the characters `h`.
fn contains_text(h: &Vec<char>, n: &str) -> (b: bool)
    ensures
        b == has_infix(h@, n@),
{
    let nc = chars_of(n);
    let m = nc.len();
    if m > h.len() {
        proof {
            assert forall|i: int| !#[trigger] occurs_at(h@, n@, i) by {
                if occurs_at(h@, n@, i) {
                    assert(i + n@.len() <= h@.len());
                }
            }
        }
        return false;
    }
    let hl = h.len();
    let mut i: usize = 0;
    while i <= hl - m
        invariant
            nc@ == n@,
            m == nc@.len(),
            hl == h@.len(),
            m <= hl,
            i <= hl - m + 1,
            forall|k: int| 0 <= k < i ==> !#[trigger] occurs_at(h@, n@, k),
        decreases hl - m + 1 - i,
    {
        let mut j: usize = 0;
        let mut same = true;
        while j < m
            invariant
                nc@ == n@,
                m == nc@.len(),
                hl == h@.len(),
                i + m <= hl,
                j <= m,
                same == (forall|t: int| 0 <= t < j ==> #[trigger] h@[i + t] == nc@[t]),
            decreases m - j,
        {
            if h[i + j] != nc[j] {
                same = false;
            }
            j += 1;
        }
        if same {
            assert forall|t: int| 0 <= t < m implies #[trigger] h@.subrange(i as int, i + m)[t]
                == n@[t] by {
                assert(h@[i + t] == nc@[t]);
            }
            assert(h@.subrange(i as int, i + m) =~= n@);
            assert(occurs_at(h@, n@, i as int));
            return true;
        }
        proof {
            if occurs_at(h@, n@, i as int) {
                assert forall|t: int| 0 <= t < m implies #[trigger] h@[i + t] == nc@[t] by {
                    assert(h@.subrange(i as int, i + m)[t] == h@[i + t]);
                }
            }
        }
        i += 1;
    }
    proof {
        assert forall|k: int| !#[trigger] occurs_at(h@, n@, k) by {
            if occurs_at(h@, n@, k) {
                assert(k < i);
            }
        }
    }
    false
}

/// The hwmon chips a lianli temperature command is recognised by, in the
/// order they are tried.
pub open spec fn known_chips() -> Seq<Seq<char>> {
    seq!["k10temp"@, "coretemp"@, "zenpower"@]
}

/// The sensor a temperature command maps to: the first known chip it
/// names, reading temp2_input when the command mentions it, else
/// temp1_input; `None` when no known chip is named.
pub open spec fn sensor_of_command(cmd: Seq<char>) -> Option<(Seq<char>, Seq<char>)> {
    let input = if has_infix(cmd, "temp2_input"@) {
        "temp2_input"@
    } else {
        "temp1_input"@
    };
    if has_infix(cmd, known_chips()[0]) {
        Some((known_chips()[0], input))
    } else if has_infix(cmd, known_chips()[1]) {
        Some((known_chips()[1], input))
    } else if has_infix(cmd, known_chips()[2]) {
        Some((known_chips()[2], input))
    } else {
        None
    }
}

/// lianli-daemon runs shell commands for temps; this daemon addresses hwmon
/// natively. Recognise the common "find hwmon by name X, read temp1_input"
/// shape. Returns the sensor and whether the command was recognised; an
/// unrecognised command defaults to k10temp/temp1_input (to be verified by
/// the user).
pub fn sensor_from_temp_command(cmd: &str) -> (r: (SensorSpec, bool))
    ensures
        match sensor_of_command(cmd@) {
            Some((chip, input)) => r.0.hwmon_name@ == chip && r.0.input@ == input && r.1,
            None => r.0.hwmon_name@ == "k10temp"@ && r.0.input@ == "temp1_input"@ && !r.1,
        },
{
    let cs = chars_of(cmd);
    let input = if contains_text(&cs, "temp2_input") {
        "temp2_input"
    } else {
        "temp1_input"
    };
    let chip = if contains_text(&cs, "k10temp") {
        Some("k10temp")
    } else if contains_text(&cs, "coretemp") {
        Some("coretemp")
    } else if contains_text(&cs, "zenpower") {
        Some("zenpower")
    } else {
        None
    };
    match chip {
        Some(c) => (SensorSpec { hwmon_name: String::from_str(c), input: String::from_str(input) }, true),
        None => (
            SensorSpec {
                hwmon_name: String::from_str("k10temp"),
                input: String::from_str("temp1_input"),
            },
            false,
        ),
    }
}

/// Whether `p` is a prefix of `h`.
pub open spec fn has_prefix(h: Seq<char>, p: Seq<char>) -> bool {
    p.len() <= h.len() && h.subrange(0, p.len() as int) == p
}

/// Whether the characters `h` start with `p`.
fn starts_with_text(h: &str, p: &str) -> (b: bool)
    ensures
        b == has_prefix(h@, p@),
{
    let hc = chars_of(h);
    let pc = chars_of(p);
    if pc.len() > hc.len() {
        return false;
    }
    let mut j: usize = 0;
    while j < pc.len()
        invariant
            hc@ == h@,
            pc@ == p@,
            pc@.len() <= hc@.len(),
            j <= pc@.len(),
            forall|t: int| 0 <= t < j ==> #[trigger] hc@[t] == pc@[t],
        decreases pc@.len() - j,
    {
        if hc[j] != pc[j] {
            assert(h@.subrange(0, p@.len() as int)[j as int] != p@[j as int]);
            return false;
        }
        j += 1;
    }
    assert(h@.subrange(0, p@.len() as int) =~= p@);
    true
}

/// Only `wireless:<mac>` devices are ours: the MAC after the prefix.
pub fn wireless_mac(device_id: &str) -> (r: Option<String>)
    ensures
        has_prefix(device_id@, "wireless:"@) ==> (r matches Some(m) && m@ == device_id@.subrange(
            9,
            device_id@.len() as int,
        )),
        !has_prefix(device_id@, "wireless:"@) ==> r is None,
{
    if !starts_with_text(device_id, "wireless:") {
        return None;
    }
    proof {
        reveal_strlit("wireless:");
    }
    let n = device_id.unicode_len();
    Some(String::from_str(device_id.substring_char(9, n)))
}

/// A numeric speed entry: a constant percent, at most 100 (absent = 0).
pub fn slot_from_percent(n: Option<u64>) -> (s: SlotSpeed)
    ensures
        s == SlotSpeed::Percent(
            match n {
                Some(v) => if v > 100 {
                    100u8
                } else {
                    v as u8
                },
                None => 0u8,
            },
        ),
{
    match n {
        Some(v) => if v > 100 {
            SlotSpeed::Percent(100)
        } else {
            SlotSpeed::Percent(v as u8)
        },
        None => SlotSpeed::Percent(0),
    }
}

/// A named speed entry: the curve of that name, except motherboard sync
/// ("__mb_sync__…"), which is not supported and becomes 0 (the flag says
/// so, for the import's warning).
pub fn slot_from_name(name: &String) -> (r: (SlotSpeed, bool))
    ensures
        has_prefix(name@, "__mb_sync__"@) ==> r == (SlotSpeed::Percent(0), true),
        !has_prefix(name@, "__mb_sync__"@) ==> r == (SlotSpeed::Curve(*name), false),
{
    if starts_with_text(name.as_str(), "__mb_sync__") {
        (SlotSpeed::Percent(0), true)
    } else {
        (SlotSpeed::Curve(name.clone()), false)
    }
}

/// Whether a lianli RGB mode is a single static color (Direct or Static).
pub fn is_static_mode(mode: &str) -> (b: bool)
    ensures
        b == (mode@ == "Direct"@ || mode@ == "Static"@),
{
    let cs = chars_of(mode);
    let direct = starts_with_text(mode, "Direct") && cs.len() == 6;
    let stat = starts_with_text(mode, "Static") && cs.len() == 6;
    proof {
        reveal_strlit("Direct");
        reveal_strlit("Static");
        if mode@.len() == 6 {
            assert(mode@.subrange(0, 6) =~= mode@);
        }
    }
    direct || stat
}

/// The imported static color: each channel kept to its low byte (as the
/// import casts it), brightness at most 4 (absent = 4).
pub fn imported_color(r: u64, g: u64, b: u64, brightness: Option<u64>) -> (c: StaticColor)
    ensures
        c.rgb@ == seq![(r % 256) as u8, (g % 256) as u8, (b % 256) as u8],
        c.brightness == match brightness {
            Some(v) => if v > 4 {
                4u8
            } else {
                v as u8
            },
            None => 4u8,
        },
{
    let rgb = [(r % 256) as u8, (g % 256) as u8, (b % 256) as u8];
    assert(rgb@ =~= seq![(r % 256) as u8, (g % 256) as u8, (b % 256) as u8]);
    let br = match brightness {
        Some(v) => if v > 4 {
            4
        } else {
            v as u8
        },
        None => 4,
    };
    StaticColor { rgb, brightness: br }
}

} // verus!
