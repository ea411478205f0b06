//! Status decoder: the typed view of the Redfish chassis health document,
//! its decoder and its encoder.
//!
//! The document is a JSON object with a required `Status` object (whose
//! `Health` and `State` strings are each optional and default to empty),
//! and an optional vendor block `Oem.Hpe.SmartStorageBattery`: an array of
//! battery modules, each again carrying a `Status` object.  Unknown fields
//! at any level are skipped without being interpreted, so controller
//! firmware may add fields freely.  A missing vendor block, or an empty
//! battery array, decodes to an empty module list and is not an error.
//! When the same known field appears twice, the later value wins.
//!
//! The decoder consumes the whole body (trailing whitespace aside) and
//! fails on anything else.  The encoder writes the same document back with
//! the vendor field names; decoding an encoded value returns that value,
//! which is proved below.

use vstd::prelude::*;
use vstd::slice::slice_subrange;
use crate::json;

verus! {

/// Failure to decode a chassis document.
#[derive(Debug, PartialEq, Eq, Structural)]
pub enum FetchError {
    /// The body is not a chassis document: malformed JSON in a field that
    /// is read, a missing top-level `Status`, or trailing bytes.
    Decode,
}

/// Mathematical view of a health record: the two status strings as byte
/// sequences.
#[verifier::ext_equal]
pub ghost struct HealthView {
    pub health: Seq<u8>,
    pub state: Seq<u8>,
}

/// Mathematical view of one battery module.
#[verifier::ext_equal]
pub ghost struct BatteryView {
    pub status: HealthView,
}

/// Mathematical view of the vendor extension block.
#[verifier::ext_equal]
pub ghost struct HpeView {
    pub smart_storage_battery: Seq<BatteryView>,
}

/// Mathematical view of the vendor namespace object.
#[verifier::ext_equal]
pub ghost struct OemView {
    pub hpe: HpeView,
}

/// Mathematical view of the whole chassis document.
#[verifier::ext_equal]
pub ghost struct RootView {
    pub status: HealthView,
    pub oem: OemView,
}

pub open spec fn default_health() -> HealthView {
    HealthView { health: Seq::empty(), state: Seq::empty() }
}

pub open spec fn default_oem() -> OemView {
    OemView { hpe: HpeView { smart_storage_battery: Seq::empty() } }
}

/// The bytes of the key `Status`.
pub open spec fn spec_key_status() -> Seq<u8> {
    seq![83u8, 116, 97, 116, 117, 115]
}

/// The bytes of the key `Health`.
pub open spec fn spec_key_health() -> Seq<u8> {
    seq![72u8, 101, 97, 108, 116, 104]
}

/// The bytes of the key `State`.
pub open spec fn spec_key_state() -> Seq<u8> {
    seq![83u8, 116, 97, 116, 101]
}

/// The bytes of the key `Oem`.
pub open spec fn spec_key_oem() -> Seq<u8> {
    seq![79u8, 101, 109]
}

/// The bytes of the key `Hpe`.
pub open spec fn spec_key_hpe() -> Seq<u8> {
    seq![72u8, 112, 101]
}

/// The bytes of the key `SmartStorageBattery`.
pub open spec fn spec_key_battery() -> Seq<u8> {
    seq![83u8, 109, 97, 114, 116, 83, 116, 111, 114, 97, 103, 101, 66, 97, 116, 116, 101, 114, 121]
}

/// Members of a health object, from just after the opening brace (or, when
/// `first` is false, from just after the previous member).  `Health` and
/// `State` take quoted strings; everything else is skipped.
pub open spec fn spec_parse_status_members(s: Seq<u8>, acc: HealthView, first: bool) -> Option<
    (HealthView, Seq<u8>),
>
    decreases s.len(),
    via spec_parse_status_members_dec
{
    let t = json::spec_skip_ws(s);
    if t.len() > 0 && t[0] == 125 {
        Some((acc, t.skip(1)))
    } else if !first && !(t.len() > 0 && t[0] == 44) {
        None
    } else {
        let u = if first {
            t
        } else {
            json::spec_skip_ws(t.skip(1))
        };
        match json::spec_parse_string(u) {
            None => None,
            Some(kr) => {
                let r2 = json::spec_skip_ws(kr.1);
                if r2.len() > 0 && r2[0] == 58 {
                    let r3 = json::spec_skip_ws(r2.skip(1));
                    let step = if kr.0 == spec_key_health() {
                        match json::spec_parse_string(r3) {
                            Some(p) => Some(
                                (HealthView { health: p.0, state: acc.state }, p.1),
                            ),
                            None => None,
                        }
                    } else if kr.0 == spec_key_state() {
                        match json::spec_parse_string(r3) {
                            Some(p) => Some(
                                (HealthView { health: acc.health, state: p.0 }, p.1),
                            ),
                            None => None,
                        }
                    } else {
                        match json::spec_skip_value(r3) {
                            Some(r4) => Some((acc, r4)),
                            None => None,
                        }
                    };
                    match step {
                        None => None,
                        Some(ar) => spec_parse_status_members(ar.1, ar.0, false),
                    }
                } else {
                    None
                }
            },
        }
    }
}

#[via_fn]
proof fn spec_parse_status_members_dec(s: Seq<u8>, acc: HealthView, first: bool) {
    lemma_member_step_len(s, first);
}

/// Common length bound for one member step: whatever known or unknown
/// member is read after position `s`, the remainder is strictly shorter
/// than `s`.
proof fn lemma_member_step_len(s: Seq<u8>, first: bool)
    ensures
        ({
            let t = json::spec_skip_ws(s);
            let u = if first {
                t
            } else if t.len() > 0 {
                json::spec_skip_ws(t.skip(1))
            } else {
                t
            };
            &&& t.len() <= s.len()
            &&& (first || t.len() > 0) ==> u.len() + (if first { 0int } else { 1 }) <= s.len()
            &&& (json::spec_parse_string(u) is Some ==> {
                let kr = json::spec_parse_string(u)->Some_0;
                let r2 = json::spec_skip_ws(kr.1);
                &&& kr.1.len() + 2 <= u.len()
                &&& r2.len() <= kr.1.len()
                &&& (r2.len() > 0 ==> {
                    let r3 = json::spec_skip_ws(r2.skip(1));
                    &&& r3.len() < u.len()
                    &&& (json::spec_parse_string(r3) is Some
                        ==> json::spec_parse_string(r3)->Some_0.1.len() < r3.len())
                    &&& (json::spec_skip_value(r3) is Some ==> json::spec_skip_value(
                        r3,
                    )->Some_0.len() <= r3.len())
                })
            })
        }),
{
    let t = json::spec_skip_ws(s);
    json::lemma_skip_ws_len(s);
    if !first && t.len() > 0 {
        json::lemma_skip_ws_len(t.skip(1));
    }
    let u = if first {
        t
    } else if t.len() > 0 {
        json::spec_skip_ws(t.skip(1))
    } else {
        t
    };
    if json::spec_parse_string(u) is Some {
        json::lemma_parse_string_len(u);
        let kr = json::spec_parse_string(u)->Some_0;
        json::lemma_skip_ws_len(kr.1);
        let r2 = json::spec_skip_ws(kr.1);
        if r2.len() > 0 {
            json::lemma_skip_ws_len(r2.skip(1));
            let r3 = json::spec_skip_ws(r2.skip(1));
            if json::spec_parse_string(r3) is Some {
                json::lemma_parse_string_len(r3);
            }
            if json::spec_skip_value(r3) is Some {
                json::lemma_skip_value_len(r3);
            }
        }
    }
}

/// A health object value: an opening brace, then its members.
pub open spec fn spec_parse_status_value(s: Seq<u8>) -> Option<(HealthView, Seq<u8>)> {
    if s.len() > 0 && s[0] == 123 {
        spec_parse_status_members(s.skip(1), default_health(), true)
    } else {
        None
    }
}

proof fn lemma_parse_status_members_len(s: Seq<u8>, acc: HealthView, first: bool)
    requires
        spec_parse_status_members(s, acc, first) is Some,
    ensures
        spec_parse_status_members(s, acc, first)->Some_0.1.len() < s.len(),
    decreases s.len(),
{
    lemma_member_step_len(s, first);
    let t = json::spec_skip_ws(s);
    if t.len() > 0 && t[0] == 125 {
    } else if !first && !(t.len() > 0 && t[0] == 44) {
    } else {
        let u = if first {
            t
        } else {
            json::spec_skip_ws(t.skip(1))
        };
        let kr = json::spec_parse_string(u)->Some_0;
        let r2 = json::spec_skip_ws(kr.1);
        let r3 = json::spec_skip_ws(r2.skip(1));
        let step = if kr.0 == spec_key_health() {
            match json::spec_parse_string(r3) {
                Some(p) => Some((HealthView { health: p.0, state: acc.state }, p.1)),
                None => None,
            }
        } else if kr.0 == spec_key_state() {
            match json::spec_parse_string(r3) {
                Some(p) => Some((HealthView { health: acc.health, state: p.0 }, p.1)),
                None => None,
            }
        } else {
            match json::spec_skip_value(r3) {
                Some(r4) => Some((acc, r4)),
                None => None,
            }
        };
        let ar = step->Some_0;
        lemma_parse_status_members_len(ar.1, ar.0, false);
    }
}

proof fn lemma_parse_status_value_len(s: Seq<u8>)
    requires
        spec_parse_status_value(s) is Some,
    ensures
        spec_parse_status_value(s)->Some_0.1.len() < s.len(),
{
    lemma_parse_status_members_len(s.skip(1), default_health(), true);
}

/// Members of one battery module object: `Status` takes a health object,
/// everything else is skipped.
pub open spec fn spec_parse_battery_members(s: Seq<u8>, acc: HealthView, first: bool) -> Option<
    (HealthView, Seq<u8>),
>
    decreases s.len(),
    via spec_parse_battery_members_dec
{
    let t = json::spec_skip_ws(s);
    if t.len() > 0 && t[0] == 125 {
        Some((acc, t.skip(1)))
    } else if !first && !(t.len() > 0 && t[0] == 44) {
        None
    } else {
        let u = if first {
            t
        } else {
            json::spec_skip_ws(t.skip(1))
        };
        match json::spec_parse_string(u) {
            None => None,
            Some(kr) => {
                let r2 = json::spec_skip_ws(kr.1);
                if r2.len() > 0 && r2[0] == 58 {
                    let r3 = json::spec_skip_ws(r2.skip(1));
                    let step = if kr.0 == spec_key_status() {
                        match spec_parse_status_value(r3) {
                            Some(p) => Some((p.0, p.1)),
                            None => None,
                        }
                    } else {
                        match json::spec_skip_value(r3) {
                            Some(r4) => Some((acc, r4)),
                            None => None,
                        }
                    };
                    match step {
                        None => None,
                        Some(ar) => spec_parse_battery_members(ar.1, ar.0, false),
                    }
                } else {
                    None
                }
            },
        }
    }
}

#[via_fn]
proof fn spec_parse_battery_members_dec(s: Seq<u8>, acc: HealthView, first: bool) {
    lemma_member_step_len(s, first);
    lemma_member_step_object_len(s, first);
}

/// Extends the member-step bound to object and array values: whichever of
/// the typed value parsers reads the value after the colon, the remainder
/// stays strictly shorter than the member's start.
proof fn lemma_member_step_object_len(s: Seq<u8>, first: bool)
    ensures
        ({
            let t = json::spec_skip_ws(s);
            let u = if first {
                t
            } else if t.len() > 0 {
                json::spec_skip_ws(t.skip(1))
            } else {
                t
            };
            json::spec_parse_string(u) is Some ==> {
                let kr = json::spec_parse_string(u)->Some_0;
                let r2 = json::spec_skip_ws(kr.1);
                r2.len() > 0 ==> {
                    let r3 = json::spec_skip_ws(r2.skip(1));
                    &&& (spec_parse_status_value(r3) is Some ==> spec_parse_status_value(
                        r3,
                    )->Some_0.1.len() < r3.len())
                }
            }
        }),
{
    let t = json::spec_skip_ws(s);
    json::lemma_skip_ws_len(s);
    if !first && t.len() > 0 {
        json::lemma_skip_ws_len(t.skip(1));
    }
    let u = if first {
        t
    } else if t.len() > 0 {
        json::spec_skip_ws(t.skip(1))
    } else {
        t
    };
    if json::spec_parse_string(u) is Some {
        let kr = json::spec_parse_string(u)->Some_0;
        let r2 = json::spec_skip_ws(kr.1);
        if r2.len() > 0 {
            let r3 = json::spec_skip_ws(r2.skip(1));
            if spec_parse_status_value(r3) is Some {
                lemma_parse_status_value_len(r3);
            }
        }
    }
}

proof fn lemma_parse_battery_members_len(s: Seq<u8>, acc: HealthView, first: bool)
    requires
        spec_parse_battery_members(s, acc, first) is Some,
    ensures
        spec_parse_battery_members(s, acc, first)->Some_0.1.len() < s.len(),
    decreases s.len(),
{
    lemma_member_step_len(s, first);
    lemma_member_step_object_len(s, first);
    let t = json::spec_skip_ws(s);
    if t.len() > 0 && t[0] == 125 {
    } else if !first && !(t.len() > 0 && t[0] == 44) {
    } else {
        let u = if first {
            t
        } else {
            json::spec_skip_ws(t.skip(1))
        };
        let kr = json::spec_parse_string(u)->Some_0;
        let r2 = json::spec_skip_ws(kr.1);
        let r3 = json::spec_skip_ws(r2.skip(1));
        let step = if kr.0 == spec_key_status() {
            match spec_parse_status_value(r3) {
                Some(p) => Some((p.0, p.1)),
                None => None,
            }
        } else {
            match json::spec_skip_value(r3) {
                Some(r4) => Some((acc, r4)),
                None => None,
            }
        };
        let ar = step->Some_0;
        lemma_parse_battery_members_len(ar.1, ar.0, false);
    }
}

/// One battery module value: an object whose `Status` member gives the
/// module's health.
pub open spec fn spec_parse_battery_value(s: Seq<u8>) -> Option<(BatteryView, Seq<u8>)> {
    if s.len() > 0 && s[0] == 123 {
        match spec_parse_battery_members(s.skip(1), default_health(), true) {
            Some(p) => Some((BatteryView { status: p.0 }, p.1)),
            None => None,
        }
    } else {
        None
    }
}

proof fn lemma_parse_battery_value_len(s: Seq<u8>)
    requires
        spec_parse_battery_value(s) is Some,
    ensures
        spec_parse_battery_value(s)->Some_0.1.len() < s.len(),
{
    lemma_parse_battery_members_len(s.skip(1), default_health(), true);
}

/// Battery array elements after the first, each preceded by a comma, up to
/// the closing bracket.  Array order is kept.
pub open spec fn spec_parse_batteries_more(s: Seq<u8>, acc: Seq<BatteryView>) -> Option<
    (Seq<BatteryView>, Seq<u8>),
>
    decreases s.len(),
    via spec_parse_batteries_more_dec
{
    let t = json::spec_skip_ws(s);
    if t.len() > 0 && t[0] == 93 {
        Some((acc, t.skip(1)))
    } else if t.len() > 0 && t[0] == 44 {
        let u = json::spec_skip_ws(t.skip(1));
        match spec_parse_battery_value(u) {
            None => None,
            Some(br) => spec_parse_batteries_more(br.1, acc.push(br.0)),
        }
    } else {
        None
    }
}

#[via_fn]
proof fn spec_parse_batteries_more_dec(s: Seq<u8>, acc: Seq<BatteryView>) {
    let t = json::spec_skip_ws(s);
    json::lemma_skip_ws_len(s);
    if t.len() > 0 && t[0] == 44 {
        json::lemma_skip_ws_len(t.skip(1));
        let u = json::spec_skip_ws(t.skip(1));
        if spec_parse_battery_value(u) is Some {
            lemma_parse_battery_value_len(u);
        }
    }
}

proof fn lemma_parse_batteries_more_len(s: Seq<u8>, acc: Seq<BatteryView>)
    requires
        spec_parse_batteries_more(s, acc) is Some,
    ensures
        spec_parse_batteries_more(s, acc)->Some_0.1.len() < s.len(),
    decreases s.len(),
{
    let t = json::spec_skip_ws(s);
    json::lemma_skip_ws_len(s);
    if t.len() > 0 && t[0] == 93 {
    } else if t.len() > 0 && t[0] == 44 {
        json::lemma_skip_ws_len(t.skip(1));
        let u = json::spec_skip_ws(t.skip(1));
        lemma_parse_battery_value_len(u);
        let br = spec_parse_battery_value(u)->Some_0;
        lemma_parse_batteries_more_len(br.1, acc.push(br.0));
    }
}

/// A battery array, from just after the opening bracket.
pub open spec fn spec_parse_batteries(s: Seq<u8>) -> Option<(Seq<BatteryView>, Seq<u8>)> {
    let t = json::spec_skip_ws(s);
    if t.len() > 0 && t[0] == 93 {
        Some((Seq::empty(), t.skip(1)))
    } else {
        match spec_parse_battery_value(t) {
            None => None,
            Some(br) => spec_parse_batteries_more(br.1, seq![br.0]),
        }
    }
}

/// A battery array value, bracket included.
pub open spec fn spec_parse_batteries_value(s: Seq<u8>) -> Option<(Seq<BatteryView>, Seq<u8>)> {
    if s.len() > 0 && s[0] == 91 {
        spec_parse_batteries(s.skip(1))
    } else {
        None
    }
}

proof fn lemma_parse_batteries_value_len(s: Seq<u8>)
    requires
        spec_parse_batteries_value(s) is Some,
    ensures
        spec_parse_batteries_value(s)->Some_0.1.len() < s.len(),
{
    let s1 = s.skip(1);
    let t = json::spec_skip_ws(s1);
    json::lemma_skip_ws_len(s1);
    if t.len() > 0 && t[0] == 93 {
    } else {
        lemma_parse_battery_value_len(t);
        let br = spec_parse_battery_value(t)->Some_0;
        lemma_parse_batteries_more_len(br.1, seq![br.0]);
    }
}

/// Members of the vendor extension object: `SmartStorageBattery` takes the
/// battery array, everything else is skipped.
pub open spec fn spec_parse_hpe_members(s: Seq<u8>, acc: Seq<BatteryView>, first: bool) -> Option<
    (Seq<BatteryView>, Seq<u8>),
>
    decreases s.len(),
    via spec_parse_hpe_members_dec
{
    let t = json::spec_skip_ws(s);
    if t.len() > 0 && t[0] == 125 {
        Some((acc, t.skip(1)))
    } else if !first && !(t.len() > 0 && t[0] == 44) {
        None
    } else {
        let u = if first {
            t
        } else {
            json::spec_skip_ws(t.skip(1))
        };
        match json::spec_parse_string(u) {
            None => None,
            Some(kr) => {
                let r2 = json::spec_skip_ws(kr.1);
                if r2.len() > 0 && r2[0] == 58 {
                    let r3 = json::spec_skip_ws(r2.skip(1));
                    let step = if kr.0 == spec_key_battery() {
                        match spec_parse_batteries_value(r3) {
                            Some(p) => Some((p.0, p.1)),
                            None => None,
                        }
                    } else {
                        match json::spec_skip_value(r3) {
                            Some(r4) => Some((acc, r4)),
                            None => None,
                        }
                    };
                    match step {
                        None => None,
                        Some(ar) => spec_parse_hpe_members(ar.1, ar.0, false),
                    }
                } else {
                    None
                }
            },
        }
    }
}

#[via_fn]
proof fn spec_parse_hpe_members_dec(s: Seq<u8>, acc: Seq<BatteryView>, first: bool) {
    lemma_member_step_len(s, first);
    let t = json::spec_skip_ws(s);
    let u = if first {
        t
    } else if t.len() > 0 {
        json::spec_skip_ws(t.skip(1))
    } else {
        t
    };
    if json::spec_parse_string(u) is Some {
        let kr = json::spec_parse_string(u)->Some_0;
        let r2 = json::spec_skip_ws(kr.1);
        if r2.len() > 0 {
            let r3 = json::spec_skip_ws(r2.skip(1));
            if spec_parse_batteries_value(r3) is Some {
                lemma_parse_batteries_value_len(r3);
            }
        }
    }
}

proof fn lemma_parse_hpe_members_len(s: Seq<u8>, acc: Seq<BatteryView>, first: bool)
    requires
        spec_parse_hpe_members(s, acc, first) is Some,
    ensures
        spec_parse_hpe_members(s, acc, first)->Some_0.1.len() < s.len(),
    decreases s.len(),
{
    lemma_member_step_len(s, first);
    let t = json::spec_skip_ws(s);
    if t.len() > 0 && t[0] == 125 {
    } else if !first && !(t.len() > 0 && t[0] == 44) {
    } else {
        let u = if first {
            t
        } else {
            json::spec_skip_ws(t.skip(1))
        };
        let kr = json::spec_parse_string(u)->Some_0;
        let r2 = json::spec_skip_ws(kr.1);
        let r3 = json::spec_skip_ws(r2.skip(1));
        if spec_parse_batteries_value(r3) is Some {
            lemma_parse_batteries_value_len(r3);
        }
        let step = if kr.0 == spec_key_battery() {
            match spec_parse_batteries_value(r3) {
                Some(p) => Some((p.0, p.1)),
                None => None,
            }
        } else {
            match json::spec_skip_value(r3) {
                Some(r4) => Some((acc, r4)),
                None => None,
            }
        };
        let ar = step->Some_0;
        lemma_parse_hpe_members_len(ar.1, ar.0, false);
    }
}

/// The vendor extension object value.
pub open spec fn spec_parse_hpe_value(s: Seq<u8>) -> Option<(HpeView, Seq<u8>)> {
    if s.len() > 0 && s[0] == 123 {
        match spec_parse_hpe_members(s.skip(1), Seq::empty(), true) {
            Some(p) => Some((HpeView { smart_storage_battery: p.0 }, p.1)),
            None => None,
        }
    } else {
        None
    }
}

proof fn lemma_parse_hpe_value_len(s: Seq<u8>)
    requires
        spec_parse_hpe_value(s) is Some,
    ensures
        spec_parse_hpe_value(s)->Some_0.1.len() < s.len(),
{
    lemma_parse_hpe_members_len(s.skip(1), Seq::empty(), true);
}

/// Members of the `Oem` namespace object: `Hpe` takes the vendor extension
/// object, everything else is skipped.
pub open spec fn spec_parse_oem_members(s: Seq<u8>, acc: HpeView, first: bool) -> Option<
    (HpeView, Seq<u8>),
>
    decreases s.len(),
    via spec_parse_oem_members_dec
{
    let t = json::spec_skip_ws(s);
    if t.len() > 0 && t[0] == 125 {
        Some((acc, t.skip(1)))
    } else if !first && !(t.len() > 0 && t[0] == 44) {
        None
    } else {
        let u = if first {
            t
        } else {
            json::spec_skip_ws(t.skip(1))
        };
        match json::spec_parse_string(u) {
            None => None,
            Some(kr) => {
                let r2 = json::spec_skip_ws(kr.1);
                if r2.len() > 0 && r2[0] == 58 {
                    let r3 = json::spec_skip_ws(r2.skip(1));
                    let step = if kr.0 == spec_key_hpe() {
                        match spec_parse_hpe_value(r3) {
                            Some(p) => Some((p.0, p.1)),
                            None => None,
                        }
                    } else {
                        match json::spec_skip_value(r3) {
                            Some(r4) => Some((acc, r4)),
                            None => None,
                        }
                    };
                    match step {
                        None => None,
                        Some(ar) => spec_parse_oem_members(ar.1, ar.0, false),
                    }
                } else {
                    None
                }
            },
        }
    }
}

#[via_fn]
proof fn spec_parse_oem_members_dec(s: Seq<u8>, acc: HpeView, first: bool) {
    lemma_member_step_len(s, first);
    let t = json::spec_skip_ws(s);
    let u = if first {
        t
    } else if t.len() > 0 {
        json::spec_skip_ws(t.skip(1))
    } else {
        t
    };
    if json::spec_parse_string(u) is Some {
        let kr = json::spec_parse_string(u)->Some_0;
        let r2 = json::spec_skip_ws(kr.1);
        if r2.len() > 0 {
            let r3 = json::spec_skip_ws(r2.skip(1));
            if spec_parse_hpe_value(r3) is Some {
                lemma_parse_hpe_value_len(r3);
            }
        }
    }
}

proof fn lemma_parse_oem_members_len(s: Seq<u8>, acc: HpeView, first: bool)
    requires
        spec_parse_oem_members(s, acc, first) is Some,
    ensures
        spec_parse_oem_members(s, acc, first)->Some_0.1.len() < s.len(),
    decreases s.len(),
{
    lemma_member_step_len(s, first);
    let t = json::spec_skip_ws(s);
    if t.len() > 0 && t[0] == 125 {
    } else if !first && !(t.len() > 0 && t[0] == 44) {
    } else {
        let u = if first {
            t
        } else {
            json::spec_skip_ws(t.skip(1))
        };
        let kr = json::spec_parse_string(u)->Some_0;
        let r2 = json::spec_skip_ws(kr.1);
        let r3 = json::spec_skip_ws(r2.skip(1));
        if spec_parse_hpe_value(r3) is Some {
            lemma_parse_hpe_value_len(r3);
        }
        let step = if kr.0 == spec_key_hpe() {
            match spec_parse_hpe_value(r3) {
                Some(p) => Some((p.0, p.1)),
                None => None,
            }
        } else {
            match json::spec_skip_value(r3) {
                Some(r4) => Some((acc, r4)),
                None => None,
            }
        };
        let ar = step->Some_0;
        lemma_parse_oem_members_len(ar.1, ar.0, false);
    }
}

/// The `Oem` namespace object value.
pub open spec fn spec_parse_oem_value(s: Seq<u8>) -> Option<(OemView, Seq<u8>)> {
    if s.len() > 0 && s[0] == 123 {
        match spec_parse_oem_members(s.skip(1), HpeView { smart_storage_battery: Seq::empty() }, true) {
            Some(p) => Some((OemView { hpe: p.0 }, p.1)),
            None => None,
        }
    } else {
        None
    }
}

proof fn lemma_parse_oem_value_len(s: Seq<u8>)
    requires
        spec_parse_oem_value(s) is Some,
    ensures
        spec_parse_oem_value(s)->Some_0.1.len() < s.len(),
{
    lemma_parse_oem_members_len(s.skip(1), HpeView { smart_storage_battery: Seq::empty() }, true);
}

/// Running value of the top-level members: the `Status` object once seen,
/// and the vendor namespace.
#[verifier::ext_equal]
pub ghost struct RootAcc {
    pub status: Option<HealthView>,
    pub oem: OemView,
}

/// Members of the top-level chassis object: `Status` takes a health
/// object, `Oem` the vendor namespace, everything else is skipped.
pub open spec fn spec_parse_root_members(s: Seq<u8>, acc: RootAcc, first: bool) -> Option<
    (RootAcc, Seq<u8>),
>
    decreases s.len(),
    via spec_parse_root_members_dec
{
    let t = json::spec_skip_ws(s);
    if t.len() > 0 && t[0] == 125 {
        Some((acc, t.skip(1)))
    } else if !first && !(t.len() > 0 && t[0] == 44) {
        None
    } else {
        let u = if first {
            t
        } else {
            json::spec_skip_ws(t.skip(1))
        };
        match json::spec_parse_string(u) {
            None => None,
            Some(kr) => {
                let r2 = json::spec_skip_ws(kr.1);
                if r2.len() > 0 && r2[0] == 58 {
                    let r3 = json::spec_skip_ws(r2.skip(1));
                    let step = if kr.0 == spec_key_status() {
                        match spec_parse_status_value(r3) {
                            Some(p) => Some((RootAcc { status: Some(p.0), oem: acc.oem }, p.1)),
                            None => None,
                        }
                    } else if kr.0 == spec_key_oem() {
                        match spec_parse_oem_value(r3) {
                            Some(p) => Some((RootAcc { status: acc.status, oem: p.0 }, p.1)),
                            None => None,
                        }
                    } else {
                        match json::spec_skip_value(r3) {
                            Some(r4) => Some((acc, r4)),
                            None => None,
                        }
                    };
                    match step {
                        None => None,
                        Some(ar) => spec_parse_root_members(ar.1, ar.0, false),
                    }
                } else {
                    None
                }
            },
        }
    }
}

#[via_fn]
proof fn spec_parse_root_members_dec(s: Seq<u8>, acc: RootAcc, first: bool) {
    lemma_member_step_len(s, first);
    let t = json::spec_skip_ws(s);
    let u = if first {
        t
    } else if t.len() > 0 {
        json::spec_skip_ws(t.skip(1))
    } else {
        t
    };
    if json::spec_parse_string(u) is Some {
        let kr = json::spec_parse_string(u)->Some_0;
        let r2 = json::spec_skip_ws(kr.1);
        if r2.len() > 0 {
            let r3 = json::spec_skip_ws(r2.skip(1));
            if spec_parse_status_value(r3) is Some {
                lemma_parse_status_value_len(r3);
            }
            if spec_parse_oem_value(r3) is Some {
                lemma_parse_oem_value_len(r3);
            }
        }
    }
}

/// The decoded chassis document for a body: present exactly when the body
/// is one chassis object with a `Status` member and nothing but trailing
/// whitespace after it.
pub open spec fn spec_decode_chassis(s: Seq<u8>) -> Option<RootView> {
    let t = json::spec_skip_ws(s);
    if t.len() > 0 && t[0] == 123 {
        match spec_parse_root_members(t.skip(1), RootAcc { status: None, oem: default_oem() }, true) {
            Some(p) => if p.0.status is Some && json::spec_skip_ws(p.1).len() == 0 {
                Some(RootView { status: p.0.status->Some_0, oem: p.0.oem })
            } else {
                None
            },
            None => None,
        }
    } else {
        None
    }
}

/// The encoded health object `{"Health":…,"State":…}`.
pub open spec fn spec_encode_health(h: HealthView) -> Seq<u8> {
    seq![123u8] + json::spec_encode_string(spec_key_health()) + seq![58u8]
        + json::spec_encode_string(h.health) + seq![44u8] + json::spec_encode_string(
        spec_key_state(),
    ) + seq![58u8] + json::spec_encode_string(h.state) + seq![125u8]
}

/// The encoded battery module `{"Status":…}`.
pub open spec fn spec_encode_battery(b: BatteryView) -> Seq<u8> {
    seq![123u8] + json::spec_encode_string(spec_key_status()) + seq![58u8] + spec_encode_health(
        b.status,
    ) + seq![125u8]
}

/// The battery array elements after the first, each preceded by a comma.
pub open spec fn spec_encode_batteries_rest(bs: Seq<BatteryView>) -> Seq<u8>
    decreases bs.len(),
{
    if bs.len() == 0 {
        Seq::empty()
    } else {
        seq![44u8] + spec_encode_battery(bs[0]) + spec_encode_batteries_rest(bs.skip(1))
    }
}

/// The encoded battery array.
pub open spec fn spec_encode_batteries(bs: Seq<BatteryView>) -> Seq<u8> {
    if bs.len() == 0 {
        seq![91u8, 93u8]
    } else {
        seq![91u8] + spec_encode_battery(bs[0]) + spec_encode_batteries_rest(bs.skip(1))
            + seq![93u8]
    }
}

/// The encoded vendor extension object.
pub open spec fn spec_encode_hpe(h: HpeView) -> Seq<u8> {
    seq![123u8] + json::spec_encode_string(spec_key_battery()) + seq![58u8] + spec_encode_batteries(
        h.smart_storage_battery,
    ) + seq![125u8]
}

/// The encoded vendor namespace object.
pub open spec fn spec_encode_oem(o: OemView) -> Seq<u8> {
    seq![123u8] + json::spec_encode_string(spec_key_hpe()) + seq![58u8] + spec_encode_hpe(o.hpe)
        + seq![125u8]
}

/// The encoded chassis document.
pub open spec fn spec_encode_root(r: RootView) -> Seq<u8> {
    seq![123u8] + json::spec_encode_string(spec_key_status()) + seq![58u8] + spec_encode_health(
        r.status,
    ) + seq![44u8] + json::spec_encode_string(spec_key_oem()) + seq![58u8] + spec_encode_oem(r.oem)
        + seq![125u8]
}

/// The chassis health record: overall status and the vendor extension.
#[derive(Debug, Clone, PartialEq)]
pub struct Root {
    pub status: Status2,
    pub oem: Oem,
}

/// The vendor namespace of the chassis document.
#[derive(Debug, Clone, PartialEq)]
pub struct Oem {
    pub hpe: Hpe,
}

/// The vendor extension block: the battery modules, in array order.
#[derive(Debug, Clone, PartialEq)]
pub struct Hpe {
    pub smart_storage_battery: Vec<SmartStorageBattery>,
}

/// The overall chassis health: the `Health` and `State` strings, each
/// empty when the controller does not report it.
#[derive(Debug, Clone, PartialEq)]
pub struct Status2 {
    pub health: Vec<u8>,
    pub state: Vec<u8>,
}

/// One battery module and its health record.
#[derive(Debug, Clone, PartialEq)]
pub struct SmartStorageBattery {
    pub status: Status,
}

/// A battery module's health: the same shape as the chassis `Status`.
#[derive(Debug, Clone, PartialEq)]
pub struct Status {
    pub health: Vec<u8>,
    pub state: Vec<u8>,
}

impl View for Status2 {
    type V = HealthView;

    open spec fn view(&self) -> HealthView {
        HealthView { health: self.health@, state: self.state@ }
    }
}

impl View for Status {
    type V = HealthView;

    open spec fn view(&self) -> HealthView {
        HealthView { health: self.health@, state: self.state@ }
    }
}

impl View for SmartStorageBattery {
    type V = BatteryView;

    open spec fn view(&self) -> BatteryView {
        BatteryView { status: self.status@ }
    }
}

impl View for Hpe {
    type V = HpeView;

    open spec fn view(&self) -> HpeView {
        HpeView {
            smart_storage_battery: self.smart_storage_battery@.map_values(
                |b: SmartStorageBattery| b@,
            ),
        }
    }
}

impl View for Oem {
    type V = OemView;

    open spec fn view(&self) -> OemView {
        OemView { hpe: self.hpe@ }
    }
}

impl View for Root {
    type V = RootView;

    open spec fn view(&self) -> RootView {
        RootView { status: self.status@, oem: self.oem@ }
    }
}

fn eq_bytes_from(a: &[u8], b: &[u8], k: usize) -> (r: bool)
    requires
        a.len() == b.len(),
        k <= a.len(),
    ensures
        r == forall|t: int| k <= t < a@.len() ==> a@[t] == b@[t],
    decreases a.len() - k,
{
    if k == a.len() {
        true
    } else {
        a[k] == b[k] && eq_bytes_from(a, b, k + 1)
    }
}

fn eq_bytes(a: &[u8], b: &[u8]) -> (r: bool)
    ensures
        r == (a@ == b@),
{
    if a.len() != b.len() {
        assert(a@ != b@);
        false
    } else {
        let r = eq_bytes_from(a, b, 0);
        proof {
            if r {
                assert(a@ =~= b@);
            }
        }
        r
    }
}

fn key_status() -> (v: Vec<u8>)
    ensures
        v@ == spec_key_status(),
{
    let mut v: Vec<u8> = Vec::new();
    v.push(83);
    v.push(116);
    v.push(97);
    v.push(116);
    v.push(117);
    v.push(115);
    assert(v@ =~= spec_key_status());
    v
}

fn key_health() -> (v: Vec<u8>)
    ensures
        v@ == spec_key_health(),
{
    let mut v: Vec<u8> = Vec::new();
    v.push(72);
    v.push(101);
    v.push(97);
    v.push(108);
    v.push(116);
    v.push(104);
    assert(v@ =~= spec_key_health());
    v
}

fn key_state() -> (v: Vec<u8>)
    ensures
        v@ == spec_key_state(),
{
    let mut v: Vec<u8> = Vec::new();
    v.push(83);
    v.push(116);
    v.push(97);
    v.push(116);
    v.push(101);
    assert(v@ =~= spec_key_state());
    v
}

fn key_oem() -> (v: Vec<u8>)
    ensures
        v@ == spec_key_oem(),
{
    let mut v: Vec<u8> = Vec::new();
    v.push(79);
    v.push(101);
    v.push(109);
    assert(v@ =~= spec_key_oem());
    v
}

fn key_hpe() -> (v: Vec<u8>)
    ensures
        v@ == spec_key_hpe(),
{
    let mut v: Vec<u8> = Vec::new();
    v.push(72);
    v.push(112);
    v.push(101);
    assert(v@ =~= spec_key_hpe());
    v
}

fn key_battery() -> (v: Vec<u8>)
    ensures
        v@ == spec_key_battery(),
{
    let mut v: Vec<u8> = Vec::new();
    v.push(83);
    v.push(109);
    v.push(97);
    v.push(114);
    v.push(116);
    v.push(83);
    v.push(116);
    v.push(111);
    v.push(114);
    v.push(97);
    v.push(103);
    v.push(101);
    v.push(66);
    v.push(97);
    v.push(116);
    v.push(116);
    v.push(101);
    v.push(114);
    v.push(121);
    assert(v@ =~= spec_key_battery());
    v
}

fn parse_health_members(s: &[u8], health: Vec<u8>, state: Vec<u8>, first: bool) -> (r: Option<
    ((Vec<u8>, Vec<u8>), &[u8]),
>)
    ensures
        ({
            let spec_r = spec_parse_status_members(
                s@,
                HealthView { health: health@, state: state@ },
                first,
            );
            match r {
                Some(p) => spec_r == Some(
                    (HealthView { health: p.0.0@, state: p.0.1@ }, p.1@),
                ),
                None => spec_r is None,
            }
        }),
    decreases s.len(),
{
    let ghost acc = HealthView { health: health@, state: state@ };
    let t = json::skip_ws(s);
    if t.len() > 0 && t[0] == 125 {
        let rest = slice_subrange(t, 1, t.len());
        assert(rest@ =~= t@.skip(1));
        return Some(((health, state), rest));
    }
    if !first && !(t.len() > 0 && t[0] == 44) {
        return None;
    }
    let u = if first {
        t
    } else {
        let t1 = slice_subrange(t, 1, t.len());
        assert(t1@ =~= t@.skip(1));
        json::skip_ws(t1)
    };
    proof {
        lemma_member_step_len(s@, first);
    }
    match json::parse_string(u) {
        None => None,
        Some((key, r1)) => {
            let r2 = json::skip_ws(r1);
            if r2.len() > 0 && r2[0] == 58 {
                let r2a = slice_subrange(r2, 1, r2.len());
                assert(r2a@ =~= r2@.skip(1));
                let r3 = json::skip_ws(r2a);
                let kh = key_health();
                let ks = key_state();
                if eq_bytes(key.as_slice(), kh.as_slice()) {
                    match json::parse_string(r3) {
                        Some((v, r4)) => parse_health_members(r4, v, state, false),
                        None => None,
                    }
                } else if eq_bytes(key.as_slice(), ks.as_slice()) {
                    match json::parse_string(r3) {
                        Some((v, r4)) => parse_health_members(r4, health, v, false),
                        None => None,
                    }
                } else {
                    match json::skip_value(r3) {
                        Some(r4) => parse_health_members(r4, health, state, false),
                        None => None,
                    }
                }
            } else {
                None
            }
        },
    }
}

fn parse_health_value(s: &[u8]) -> (r: Option<((Vec<u8>, Vec<u8>), &[u8])>)
    ensures
        match r {
            Some(p) => spec_parse_status_value(s@) == Some(
                (HealthView { health: p.0.0@, state: p.0.1@ }, p.1@),
            ),
            None => spec_parse_status_value(s@) is None,
        },
{
    if s.len() > 0 && s[0] == 123 {
        let s1 = slice_subrange(s, 1, s.len());
        assert(s1@ =~= s@.skip(1));
        parse_health_members(s1, Vec::new(), Vec::new(), true)
    } else {
        None
    }
}

fn parse_battery_members(s: &[u8], status: Status, first: bool) -> (r: Option<(Status, &[u8])>)
    ensures
        ({
            let spec_r = spec_parse_battery_members(s@, status@, first);
            match r {
                Some(p) => spec_r == Some((p.0@, p.1@)),
                None => spec_r is None,
            }
        }),
    decreases s.len(),
{
    let t = json::skip_ws(s);
    if t.len() > 0 && t[0] == 125 {
        let rest = slice_subrange(t, 1, t.len());
        assert(rest@ =~= t@.skip(1));
        return Some((status, rest));
    }
    if !first && !(t.len() > 0 && t[0] == 44) {
        return None;
    }
    let u = if first {
        t
    } else {
        let t1 = slice_subrange(t, 1, t.len());
        assert(t1@ =~= t@.skip(1));
        json::skip_ws(t1)
    };
    proof {
        lemma_member_step_len(s@, first);
        lemma_member_step_object_len(s@, first);
    }
    match json::parse_string(u) {
        None => None,
        Some((key, r1)) => {
            let r2 = json::skip_ws(r1);
            if r2.len() > 0 && r2[0] == 58 {
                let r2a = slice_subrange(r2, 1, r2.len());
                assert(r2a@ =~= r2@.skip(1));
                let r3 = json::skip_ws(r2a);
                let kst = key_status();
                if eq_bytes(key.as_slice(), kst.as_slice()) {
                    match parse_health_value(r3) {
                        Some(((health, state), r4)) => parse_battery_members(
                            r4,
                            Status { health, state },
                            false,
                        ),
                        None => None,
                    }
                } else {
                    match json::skip_value(r3) {
                        Some(r4) => parse_battery_members(r4, status, false),
                        None => None,
                    }
                }
            } else {
                None
            }
        },
    }
}

fn parse_battery_value(s: &[u8]) -> (r: Option<(SmartStorageBattery, &[u8])>)
    ensures
        match r {
            Some(p) => spec_parse_battery_value(s@) == Some((p.0@, p.1@)),
            None => spec_parse_battery_value(s@) is None,
        },
{
    if s.len() > 0 && s[0] == 123 {
        let s1 = slice_subrange(s, 1, s.len());
        assert(s1@ =~= s@.skip(1));
        match parse_battery_members(s1, Status { health: Vec::new(), state: Vec::new() }, true) {
            Some((st, rest)) => Some((SmartStorageBattery { status: st }, rest)),
            None => None,
        }
    } else {
        None
    }
}

fn parse_batteries_more(s: &[u8], acc: Vec<SmartStorageBattery>) -> (r: Option<
    (Vec<SmartStorageBattery>, &[u8]),
>)
    ensures
        ({
            let spec_r = spec_parse_batteries_more(
                s@,
                acc@.map_values(|b: SmartStorageBattery| b@),
            );
            match r {
                Some(p) => spec_r == Some((p.0@.map_values(|b: SmartStorageBattery| b@), p.1@)),
                None => spec_r is None,
            }
        }),
    decreases s.len(),
{
    let t = json::skip_ws(s);
    if t.len() > 0 && t[0] == 93 {
        let rest = slice_subrange(t, 1, t.len());
        assert(rest@ =~= t@.skip(1));
        Some((acc, rest))
    } else if t.len() > 0 && t[0] == 44 {
        let t1 = slice_subrange(t, 1, t.len());
        assert(t1@ =~= t@.skip(1));
        let u = json::skip_ws(t1);
        match parse_battery_value(u) {
            None => None,
            Some((b, r1)) => {
                proof {
                    lemma_parse_battery_value_len(u@);
                }
                let mut acc2 = acc;
                acc2.push(b);
                assert(acc2@.map_values(|b2: SmartStorageBattery| b2@) =~= acc@.map_values(
                    |b2: SmartStorageBattery| b2@,
                ).push(b@));
                parse_batteries_more(r1, acc2)
            },
        }
    } else {
        None
    }
}

fn parse_batteries_value(s: &[u8]) -> (r: Option<(Vec<SmartStorageBattery>, &[u8])>)
    ensures
        ({
            let spec_r = spec_parse_batteries_value(s@);
            match r {
                Some(p) => spec_r == Some((p.0@.map_values(|b: SmartStorageBattery| b@), p.1@)),
                None => spec_r is None,
            }
        }),
{
    if s.len() > 0 && s[0] == 91 {
        let s1 = slice_subrange(s, 1, s.len());
        assert(s1@ =~= s@.skip(1));
        let t = json::skip_ws(s1);
        if t.len() > 0 && t[0] == 93 {
            let rest = slice_subrange(t, 1, t.len());
            assert(rest@ =~= t@.skip(1));
            let empty: Vec<SmartStorageBattery> = Vec::new();
            assert(empty@.map_values(|b: SmartStorageBattery| b@) =~= Seq::<BatteryView>::empty());
            Some((empty, rest))
        } else {
            match parse_battery_value(t) {
                None => None,
                Some((b, r1)) => {
                    let mut acc: Vec<SmartStorageBattery> = Vec::new();
                    acc.push(b);
                    assert(acc@.map_values(|b2: SmartStorageBattery| b2@) =~= seq![b@]);
                    parse_batteries_more(r1, acc)
                },
            }
        }
    } else {
        None
    }
}

fn parse_hpe_members(s: &[u8], acc: Vec<SmartStorageBattery>, first: bool) -> (r: Option<
    (Vec<SmartStorageBattery>, &[u8]),
>)
    ensures
        ({
            let spec_r = spec_parse_hpe_members(
                s@,
                acc@.map_values(|b: SmartStorageBattery| b@),
                first,
            );
            match r {
                Some(p) => spec_r == Some((p.0@.map_values(|b: SmartStorageBattery| b@), p.1@)),
                None => spec_r is None,
            }
        }),
    decreases s.len(),
{
    let t = json::skip_ws(s);
    if t.len() > 0 && t[0] == 125 {
        let rest = slice_subrange(t, 1, t.len());
        assert(rest@ =~= t@.skip(1));
        return Some((acc, rest));
    }
    if !first && !(t.len() > 0 && t[0] == 44) {
        return None;
    }
    let u = if first {
        t
    } else {
        let t1 = slice_subrange(t, 1, t.len());
        assert(t1@ =~= t@.skip(1));
        json::skip_ws(t1)
    };
    proof {
        lemma_member_step_len(s@, first);
    }
    match json::parse_string(u) {
        None => None,
        Some((key, r1)) => {
            let r2 = json::skip_ws(r1);
            if r2.len() > 0 && r2[0] == 58 {
                let r2a = slice_subrange(r2, 1, r2.len());
                assert(r2a@ =~= r2@.skip(1));
                let r3 = json::skip_ws(r2a);
                let kb = key_battery();
                if eq_bytes(key.as_slice(), kb.as_slice()) {
                    match parse_batteries_value(r3) {
                        Some((bs, r4)) => {
                            proof {
                                lemma_parse_batteries_value_len(r3@);
                            }
                            parse_hpe_members(r4, bs, false)
                        },
                        None => None,
                    }
                } else {
                    match json::skip_value(r3) {
                        Some(r4) => parse_hpe_members(r4, acc, false),
                        None => None,
                    }
                }
            } else {
                None
            }
        },
    }
}

fn parse_hpe_value(s: &[u8]) -> (r: Option<(Hpe, &[u8])>)
    ensures
        match r {
            Some(p) => spec_parse_hpe_value(s@) == Some((p.0@, p.1@)),
            None => spec_parse_hpe_value(s@) is None,
        },
{
    if s.len() > 0 && s[0] == 123 {
        let s1 = slice_subrange(s, 1, s.len());
        assert(s1@ =~= s@.skip(1));
        let empty: Vec<SmartStorageBattery> = Vec::new();
        assert(empty@.map_values(|b: SmartStorageBattery| b@) =~= Seq::<BatteryView>::empty());
        match parse_hpe_members(s1, empty, true) {
            Some((bs, rest)) => Some((Hpe { smart_storage_battery: bs }, rest)),
            None => None,
        }
    } else {
        None
    }
}

fn parse_oem_members(s: &[u8], acc: Hpe, first: bool) -> (r: Option<(Hpe, &[u8])>)
    ensures
        ({
            let spec_r = spec_parse_oem_members(s@, acc@, first);
            match r {
                Some(p) => spec_r == Some((p.0@, p.1@)),
                None => spec_r is None,
            }
        }),
    decreases s.len(),
{
    let t = json::skip_ws(s);
    if t.len() > 0 && t[0] == 125 {
        let rest = slice_subrange(t, 1, t.len());
        assert(rest@ =~= t@.skip(1));
        return Some((acc, rest));
    }
    if !first && !(t.len() > 0 && t[0] == 44) {
        return None;
    }
    let u = if first {
        t
    } else {
        let t1 = slice_subrange(t, 1, t.len());
        assert(t1@ =~= t@.skip(1));
        json::skip_ws(t1)
    };
    proof {
        lemma_member_step_len(s@, first);
    }
    match json::parse_string(u) {
        None => None,
        Some((key, r1)) => {
            let r2 = json::skip_ws(r1);
            if r2.len() > 0 && r2[0] == 58 {
                let r2a = slice_subrange(r2, 1, r2.len());
                assert(r2a@ =~= r2@.skip(1));
                let r3 = json::skip_ws(r2a);
                let kh = key_hpe();
                if eq_bytes(key.as_slice(), kh.as_slice()) {
                    match parse_hpe_value(r3) {
                        Some((h, r4)) => {
                            proof {
                                lemma_parse_hpe_value_len(r3@);
                            }
                            parse_oem_members(r4, h, false)
                        },
                        None => None,
                    }
                } else {
                    match json::skip_value(r3) {
                        Some(r4) => parse_oem_members(r4, acc, false),
                        None => None,
                    }
                }
            } else {
                None
            }
        },
    }
}

fn parse_oem_value(s: &[u8]) -> (r: Option<(Oem, &[u8])>)
    ensures
        match r {
            Some(p) => spec_parse_oem_value(s@) == Some((p.0@, p.1@)),
            None => spec_parse_oem_value(s@) is None,
        },
{
    if s.len() > 0 && s[0] == 123 {
        let s1 = slice_subrange(s, 1, s.len());
        assert(s1@ =~= s@.skip(1));
        let empty: Vec<SmartStorageBattery> = Vec::new();
        assert(empty@.map_values(|b: SmartStorageBattery| b@) =~= Seq::<BatteryView>::empty());
        match parse_oem_members(s1, Hpe { smart_storage_battery: empty }, true) {
            Some((h, rest)) => Some((Oem { hpe: h }, rest)),
            None => None,
        }
    } else {
        None
    }
}

/// The view of the running top-level state.
spec fn root_acc_view(status: Option<Status2>, oem: Oem) -> RootAcc {
    RootAcc {
        status: match status {
            Some(st) => Some(st@),
            None => None,
        },
        oem: oem@,
    }
}

fn parse_root_members(s: &[u8], status: Option<Status2>, oem: Oem, first: bool) -> (r: Option<
    ((Option<Status2>, Oem), &[u8]),
>)
    ensures
        ({
            let spec_r = spec_parse_root_members(s@, root_acc_view(status, oem), first);
            match r {
                Some(p) => spec_r == Some((root_acc_view(p.0.0, p.0.1), p.1@)),
                None => spec_r is None,
            }
        }),
    decreases s.len(),
{
    let t = json::skip_ws(s);
    if t.len() > 0 && t[0] == 125 {
        let rest = slice_subrange(t, 1, t.len());
        assert(rest@ =~= t@.skip(1));
        return Some(((status, oem), rest));
    }
    if !first && !(t.len() > 0 && t[0] == 44) {
        return None;
    }
    let u = if first {
        t
    } else {
        let t1 = slice_subrange(t, 1, t.len());
        assert(t1@ =~= t@.skip(1));
        json::skip_ws(t1)
    };
    proof {
        lemma_member_step_len(s@, first);
    }
    match json::parse_string(u) {
        None => None,
        Some((key, r1)) => {
            let r2 = json::skip_ws(r1);
            if r2.len() > 0 && r2[0] == 58 {
                let r2a = slice_subrange(r2, 1, r2.len());
                assert(r2a@ =~= r2@.skip(1));
                let r3 = json::skip_ws(r2a);
                let kst = key_status();
                let ko = key_oem();
                if eq_bytes(key.as_slice(), kst.as_slice()) {
                    match parse_health_value(r3) {
                        Some(((health, state), r4)) => {
                            proof {
                                lemma_parse_status_value_len(r3@);
                            }
                            parse_root_members(r4, Some(Status2 { health, state }), oem, false)
                        },
                        None => None,
                    }
                } else if eq_bytes(key.as_slice(), ko.as_slice()) {
                    match parse_oem_value(r3) {
                        Some((o, r4)) => {
                            proof {
                                lemma_parse_oem_value_len(r3@);
                            }
                            parse_root_members(r4, status, o, false)
                        },
                        None => None,
                    }
                } else {
                    match json::skip_value(r3) {
                        Some(r4) => parse_root_members(r4, status, oem, false),
                        None => None,
                    }
                }
            } else {
                None
            }
        },
    }
}

/// Decodes a chassis document body.  Succeeds exactly when the body is a
/// JSON object carrying a `Status` member (with optional `Health` and
/// `State` strings) and nothing but whitespace after it; the vendor
/// battery list defaults to empty when the `Oem.Hpe.SmartStorageBattery`
/// block is absent.  Unknown members are ignored.
pub fn decode_chassis(body: &[u8]) -> (r: Result<Root, FetchError>)
    ensures
        match r {
            Ok(root) => spec_decode_chassis(body@) == Some(root@),
            Err(e) => spec_decode_chassis(body@) is None && e == FetchError::Decode,
        },
{
    let t = json::skip_ws(body);
    if t.len() > 0 && t[0] == 123 {
        let t1 = slice_subrange(t, 1, t.len());
        assert(t1@ =~= t@.skip(1));
        let empty: Vec<SmartStorageBattery> = Vec::new();
        assert(empty@.map_values(|b: SmartStorageBattery| b@) =~= Seq::<BatteryView>::empty());
        let oem0 = Oem { hpe: Hpe { smart_storage_battery: empty } };
        assert(root_acc_view(None, oem0) =~~= RootAcc { status: None, oem: default_oem() });
        match parse_root_members(t1, None, oem0, true) {
            Some(((status, oem), rest)) => {
                let tail = json::skip_ws(rest);
                match status {
                    Some(st) => {
                        if tail.len() == 0 {
                            Ok(Root { status: st, oem })
                        } else {
                            Err(FetchError::Decode)
                        }
                    },
                    None => Err(FetchError::Decode),
                }
            },
            None => Err(FetchError::Decode),
        }
    } else {
        Err(FetchError::Decode)
    }
}

fn append_health(out: &mut Vec<u8>, health: &[u8], state: &[u8])
    ensures
        final(out)@ == old(out)@ + spec_encode_health(
            HealthView { health: health@, state: state@ },
        ),
{
    out.push(123);
    let kh = key_health();
    json::append_string(out, kh.as_slice());
    out.push(58);
    json::append_string(out, health);
    out.push(44);
    let ks = key_state();
    json::append_string(out, ks.as_slice());
    out.push(58);
    json::append_string(out, state);
    out.push(125);
    assert(out@ =~= old(out)@ + spec_encode_health(
        HealthView { health: health@, state: state@ },
    ));
}

fn append_battery(out: &mut Vec<u8>, b: &SmartStorageBattery)
    ensures
        final(out)@ == old(out)@ + spec_encode_battery(b@),
{
    out.push(123);
    let kst = key_status();
    json::append_string(out, kst.as_slice());
    out.push(58);
    append_health(out, b.status.health.as_slice(), b.status.state.as_slice());
    out.push(125);
    assert(out@ =~= old(out)@ + spec_encode_battery(b@));
}

fn append_batteries_rest(out: &mut Vec<u8>, items: &Vec<SmartStorageBattery>, i: usize)
    requires
        1 <= i <= items.len(),
    ensures
        final(out)@ == old(out)@ + spec_encode_batteries_rest(
            items@.map_values(|b: SmartStorageBattery| b@).skip(i as int),
        ),
    decreases items.len() - i,
{
    let ghost mapped = items@.map_values(|b: SmartStorageBattery| b@);
    if i == items.len() {
        assert(mapped.skip(i as int) =~= Seq::<BatteryView>::empty());
        assert(out@ =~= out@ + spec_encode_batteries_rest(mapped.skip(i as int)));
    } else {
        out.push(44);
        append_battery(out, &items[i]);
        append_batteries_rest(out, items, i + 1);
        proof {
            assert(mapped.skip(i as int).skip(1) =~= mapped.skip(i + 1));
            assert(mapped.skip(i as int)[0] == items@[i as int]@);
            assert(out@ =~= old(out)@ + spec_encode_batteries_rest(mapped.skip(i as int)));
        }
    }
}

fn append_batteries(out: &mut Vec<u8>, items: &Vec<SmartStorageBattery>)
    ensures
        final(out)@ == old(out)@ + spec_encode_batteries(
            items@.map_values(|b: SmartStorageBattery| b@),
        ),
{
    let ghost mapped = items@.map_values(|b: SmartStorageBattery| b@);
    out.push(91);
    if items.len() == 0 {
        out.push(93);
        assert(out@ =~= old(out)@ + spec_encode_batteries(mapped));
    } else {
        append_battery(out, &items[0]);
        if items.len() > 1 {
            append_batteries_rest(out, items, 1);
        } else {
            assert(mapped.skip(1) =~= Seq::<BatteryView>::empty());
        }
        out.push(93);
        proof {
            assert(mapped[0] == items@[0]@);
            assert(out@ =~= old(out)@ + spec_encode_batteries(mapped));
        }
    }
}

fn append_oem(out: &mut Vec<u8>, oem: &Oem)
    ensures
        final(out)@ == old(out)@ + spec_encode_oem(oem@),
{
    out.push(123);
    let kh = key_hpe();
    json::append_string(out, kh.as_slice());
    out.push(58);
    out.push(123);
    let kb = key_battery();
    json::append_string(out, kb.as_slice());
    out.push(58);
    append_batteries(out, &oem.hpe.smart_storage_battery);
    out.push(125);
    out.push(125);
    assert(out@ =~= old(out)@ + spec_encode_oem(oem@));
}

/// Encodes a chassis health record back to its JSON document, with the
/// vendor field names and no added whitespace.
pub fn encode_chassis(root: &Root) -> (r: Vec<u8>)
    ensures
        r@ == spec_encode_root(root@),
{
    let mut out: Vec<u8> = Vec::new();
    out.push(123);
    let kst = key_status();
    json::append_string(&mut out, kst.as_slice());
    out.push(58);
    append_health(&mut out, root.status.health.as_slice(), root.status.state.as_slice());
    out.push(44);
    let ko = key_oem();
    json::append_string(&mut out, ko.as_slice());
    out.push(58);
    append_oem(&mut out, &root.oem);
    out.push(125);
    assert(out@ =~= spec_encode_root(root@));
    out
}

proof fn lemma_rt_health(h: HealthView, rest: Seq<u8>)
    ensures
        spec_parse_status_value(spec_encode_health(h) + rest) == Some((h, rest)),
{
    let s = spec_encode_health(h) + rest;
    let tail5 = seq![125u8] + rest;
    let tail4 = seq![58u8] + (json::spec_encode_string(h.state) + tail5);
    let tail3 = json::spec_encode_string(spec_key_state()) + tail4;
    let tail2 = seq![44u8] + tail3;
    let tail1 = seq![58u8] + (json::spec_encode_string(h.health) + tail2);
    let m1 = json::spec_encode_string(spec_key_health()) + tail1;
    assert(s =~= seq![123u8] + m1);
    assert(s.skip(1) =~= m1);
    assert(m1[0] == 34);

    // first member: "Health": <h.health>
    json::lemma_parse_encoded_string(spec_key_health(), tail1);
    assert(tail1[0] == 58);
    assert(tail1.skip(1) =~= json::spec_encode_string(h.health) + tail2);
    assert((json::spec_encode_string(h.health) + tail2)[0] == 34);
    json::lemma_parse_encoded_string(h.health, tail2);
    let acc1 = HealthView { health: h.health, state: default_health().state };

    // second member: "State": <h.state>
    assert(tail2[0] == 44);
    assert(tail2.skip(1) =~= tail3);
    assert(tail3[0] == 34);
    json::lemma_parse_encoded_string(spec_key_state(), tail4);
    assert(spec_key_state().len() == 5 && spec_key_health().len() == 6);
    assert(tail4[0] == 58);
    assert(tail4.skip(1) =~= json::spec_encode_string(h.state) + tail5);
    assert((json::spec_encode_string(h.state) + tail5)[0] == 34);
    json::lemma_parse_encoded_string(h.state, tail5);
    let acc2 = HealthView { health: h.health, state: h.state };

    // closing brace
    assert(tail5[0] == 125);
    assert(tail5.skip(1) =~= rest);
    assert(spec_parse_status_members(tail5, acc2, false) == Some((acc2, rest)));
    assert(spec_parse_status_members(tail2, acc1, false) == Some((acc2, rest)));
    assert(spec_parse_status_members(m1, default_health(), true) == Some((acc2, rest)));
    assert(acc2 =~= h);
}

proof fn lemma_rt_battery(b: BatteryView, rest: Seq<u8>)
    ensures
        spec_parse_battery_value(spec_encode_battery(b) + rest) == Some((b, rest)),
{
    let s = spec_encode_battery(b) + rest;
    let tail2 = seq![125u8] + rest;
    let tail1 = seq![58u8] + (spec_encode_health(b.status) + tail2);
    let m1 = json::spec_encode_string(spec_key_status()) + tail1;
    assert(s =~= seq![123u8] + m1);
    assert(s.skip(1) =~= m1);
    assert(m1[0] == 34);
    json::lemma_parse_encoded_string(spec_key_status(), tail1);
    assert(tail1[0] == 58);
    assert(tail1.skip(1) =~= spec_encode_health(b.status) + tail2);
    assert((spec_encode_health(b.status) + tail2)[0] == 123);
    lemma_rt_health(b.status, tail2);
    assert(tail2[0] == 125);
    assert(tail2.skip(1) =~= rest);
    assert(spec_parse_battery_members(tail2, b.status, false) == Some((b.status, rest)));
    assert(spec_parse_battery_members(m1, default_health(), true) == Some((b.status, rest)));
    assert(BatteryView { status: b.status } =~= b);
}

proof fn lemma_rt_batteries_more(acc: Seq<BatteryView>, bs: Seq<BatteryView>, rest: Seq<u8>)
    ensures
        spec_parse_batteries_more(spec_encode_batteries_rest(bs) + seq![93u8] + rest, acc)
            == Some((acc + bs, rest)),
    decreases bs.len(),
{
    let s = spec_encode_batteries_rest(bs) + seq![93u8] + rest;
    if bs.len() == 0 {
        assert(s =~= seq![93u8] + rest);
        assert(s[0] == 93);
        assert(s.skip(1) =~= rest);
        assert(acc + bs =~= acc);
    } else {
        let tail = spec_encode_batteries_rest(bs.skip(1)) + seq![93u8] + rest;
        assert(s =~= seq![44u8] + (spec_encode_battery(bs[0]) + tail));
        assert(s[0] == 44);
        assert(s.skip(1) =~= spec_encode_battery(bs[0]) + tail);
        assert((spec_encode_battery(bs[0]) + tail)[0] == 123);
        lemma_rt_battery(bs[0], tail);
        lemma_rt_batteries_more(acc.push(bs[0]), bs.skip(1), rest);
        assert(acc.push(bs[0]) + bs.skip(1) =~= acc + bs);
    }
}

proof fn lemma_rt_batteries(bs: Seq<BatteryView>, rest: Seq<u8>)
    ensures
        spec_parse_batteries_value(spec_encode_batteries(bs) + rest) == Some((bs, rest)),
{
    let s = spec_encode_batteries(bs) + rest;
    if bs.len() == 0 {
        assert(s =~= seq![91u8] + (seq![93u8] + rest));
        assert(s[0] == 91);
        assert(s.skip(1) =~= seq![93u8] + rest);
        assert((seq![93u8] + rest)[0] == 93);
        assert((seq![93u8] + rest).skip(1) =~= rest);
        assert(Seq::<BatteryView>::empty() =~= bs);
    } else {
        let tail = spec_encode_batteries_rest(bs.skip(1)) + seq![93u8] + rest;
        assert(s =~= seq![91u8] + (spec_encode_battery(bs[0]) + tail));
        assert(s[0] == 91);
        assert(s.skip(1) =~= spec_encode_battery(bs[0]) + tail);
        assert((spec_encode_battery(bs[0]) + tail)[0] == 123);
        lemma_rt_battery(bs[0], tail);
        lemma_rt_batteries_more(seq![bs[0]], bs.skip(1), rest);
        assert(seq![bs[0]] + bs.skip(1) =~= bs);
    }
}

proof fn lemma_rt_hpe(h: HpeView, rest: Seq<u8>)
    ensures
        spec_parse_hpe_value(spec_encode_hpe(h) + rest) == Some((h, rest)),
{
    let s = spec_encode_hpe(h) + rest;
    let tail2 = seq![125u8] + rest;
    let tail1 = seq![58u8] + (spec_encode_batteries(h.smart_storage_battery) + tail2);
    let m1 = json::spec_encode_string(spec_key_battery()) + tail1;
    assert(s =~= seq![123u8] + m1);
    assert(s.skip(1) =~= m1);
    assert(m1[0] == 34);
    json::lemma_parse_encoded_string(spec_key_battery(), tail1);
    assert(tail1[0] == 58);
    assert(tail1.skip(1) =~= spec_encode_batteries(h.smart_storage_battery) + tail2);
    assert((spec_encode_batteries(h.smart_storage_battery) + tail2)[0] == 91);
    lemma_rt_batteries(h.smart_storage_battery, tail2);
    assert(tail2[0] == 125);
    assert(tail2.skip(1) =~= rest);
    assert(spec_parse_hpe_members(tail2, h.smart_storage_battery, false) == Some(
        (h.smart_storage_battery, rest),
    ));
    assert(spec_parse_hpe_members(m1, Seq::empty(), true) == Some(
        (h.smart_storage_battery, rest),
    ));
    assert(HpeView { smart_storage_battery: h.smart_storage_battery } =~= h);
}

proof fn lemma_rt_oem(o: OemView, rest: Seq<u8>)
    ensures
        spec_parse_oem_value(spec_encode_oem(o) + rest) == Some((o, rest)),
{
    let s = spec_encode_oem(o) + rest;
    let tail2 = seq![125u8] + rest;
    let tail1 = seq![58u8] + (spec_encode_hpe(o.hpe) + tail2);
    let m1 = json::spec_encode_string(spec_key_hpe()) + tail1;
    assert(s =~= seq![123u8] + m1);
    assert(s.skip(1) =~= m1);
    assert(m1[0] == 34);
    json::lemma_parse_encoded_string(spec_key_hpe(), tail1);
    assert(tail1[0] == 58);
    assert(tail1.skip(1) =~= spec_encode_hpe(o.hpe) + tail2);
    assert((spec_encode_hpe(o.hpe) + tail2)[0] == 123);
    lemma_rt_hpe(o.hpe, tail2);
    assert(tail2[0] == 125);
    assert(tail2.skip(1) =~= rest);
    assert(spec_parse_oem_members(tail2, o.hpe, false) == Some((o.hpe, rest)));
    assert(spec_parse_oem_members(
        m1,
        HpeView { smart_storage_battery: Seq::empty() },
        true,
    ) == Some((o.hpe, rest)));
    assert(OemView { hpe: o.hpe } =~= o);
}

/// Serialization symmetry: decoding an encoded chassis record yields the
/// record back, for every record value.
pub proof fn lemma_chassis_round_trip(v: RootView)
    ensures
        spec_decode_chassis(spec_encode_root(v)) == Some(v),
{
    let s = spec_encode_root(v);
    let empty = Seq::<u8>::empty();
    let tail5 = seq![125u8] + empty;
    let tail4 = seq![58u8] + (spec_encode_oem(v.oem) + tail5);
    let tail3 = json::spec_encode_string(spec_key_oem()) + tail4;
    let tail2 = seq![44u8] + tail3;
    let tail1 = seq![58u8] + (spec_encode_health(v.status) + tail2);
    let m1 = json::spec_encode_string(spec_key_status()) + tail1;
    assert(s =~= seq![123u8] + m1);
    assert(s[0] == 123);
    assert(s.skip(1) =~= m1);
    assert(m1[0] == 34);

    // first member: "Status": <v.status>
    json::lemma_parse_encoded_string(spec_key_status(), tail1);
    assert(tail1[0] == 58);
    assert(tail1.skip(1) =~= spec_encode_health(v.status) + tail2);
    assert((spec_encode_health(v.status) + tail2)[0] == 123);
    lemma_rt_health(v.status, tail2);
    let acc0 = RootAcc { status: None, oem: default_oem() };
    let acc1 = RootAcc { status: Some(v.status), oem: default_oem() };

    // second member: "Oem": <v.oem>
    assert(tail2[0] == 44);
    assert(tail2.skip(1) =~= tail3);
    assert(tail3[0] == 34);
    json::lemma_parse_encoded_string(spec_key_oem(), tail4);
    assert(spec_key_oem().len() == 3 && spec_key_status().len() == 6);
    assert(tail4[0] == 58);
    assert(tail4.skip(1) =~= spec_encode_oem(v.oem) + tail5);
    assert((spec_encode_oem(v.oem) + tail5)[0] == 123);
    lemma_rt_oem(v.oem, tail5);
    let acc2 = RootAcc { status: Some(v.status), oem: v.oem };

    // closing brace, end of input
    assert(tail5[0] == 125);
    assert(tail5.skip(1) =~= empty);
    assert(spec_parse_root_members(tail5, acc2, false) == Some((acc2, empty)));
    assert(spec_parse_root_members(tail2, acc1, false) == Some((acc2, empty)));
    assert(spec_parse_root_members(m1, acc0, true) == Some((acc2, empty)));
    assert(RootView { status: v.status, oem: v.oem } =~= v);
}

} // verus!
