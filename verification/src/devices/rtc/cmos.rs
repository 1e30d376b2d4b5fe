use vstd::prelude::*;

use crate::devices::bus::pio::{PioDevice, fill, filled};

verus! {

/// The CMOS real-time clock: port 0x70 selects a register, port 0x71 reads it.
/// The clock registers show the host's current UTC time in BCD.
#[derive(Clone, Copy, Debug)]
pub struct CmosRtc {
    pub index: u8,
}

/// The host's clock reading (`std::time::SystemTime`).
#[verifier::external_type_specification]
#[verifier::external_body]
pub struct ExSystemTime(std::time::SystemTime);

/// The error of a clock reading before the reference time (`std::time::SystemTimeError`).
#[verifier::external_type_specification]
#[verifier::external_body]
pub struct ExSystemTimeError(std::time::SystemTimeError);

/// Calls `SystemTime::now`. What it returns depends on the host clock, so nothing
/// is said of it.
#[verifier::external_body]
fn system_now() -> std::time::SystemTime {
    std::time::SystemTime::now()
}

/// Calls `SystemTime::duration_since` with the Unix epoch: the time since the epoch,
/// or an error if `t` is earlier. Nothing is said of the value.
#[verifier::external_body]
fn since_unix_epoch(t: &std::time::SystemTime) -> Result<core::time::Duration, std::time::SystemTimeError> {
    t.duration_since(std::time::UNIX_EPOCH)
}

/// Calls `Duration::as_secs`: the whole seconds of `d`. Nothing is said of the
/// value, as nothing here knows the duration.
#[verifier::external_body]
fn whole_secs(d: &core::time::Duration) -> u64 {
    d.as_secs()
}

/// The whole seconds since the Unix epoch by the host clock, zero if the clock is
/// before the epoch.
fn unix_time_secs() -> u64 {
    let now = system_now();
    match since_unix_epoch(&now) {
        Ok(d) => whole_secs(&d),
        Err(_) => 0,
    }
}

/// Rust's integer division, which rounds toward zero.
pub open spec fn trunc_div(a: int, b: int) -> int {
    if a >= 0 { a / b } else { -((-a) / b) }
}

/// Rust's integer remainder, which takes the sign of the dividend.
pub open spec fn trunc_rem(a: int, b: int) -> int {
    if a >= 0 { a % b } else { -((-a) % b) }
}

/// The 400-year era of day `z` (days since 1970-01-01) and the day within it,
/// counting from 0000-03-01.
pub open spec fn civil_era(z: int) -> int {
    let z1 = z + 719468;
    trunc_div(if z1 >= 0 { z1 } else { z1 - 146096 }, 146097)
}

pub open spec fn civil_doe(z: int) -> int {
    z + 719468 - civil_era(z) * 146097
}

/// The year of the era, the day of that (March-based) year, and its month index.
pub open spec fn civil_yoe(doe: int) -> int {
    (doe - doe / 1460 + doe / 36524 - doe / 146096) / 365
}

pub open spec fn civil_doy(doe: int) -> int {
    let yoe = civil_yoe(doe);
    doe - (365 * yoe + yoe / 4 - yoe / 100)
}

pub open spec fn civil_mp(doe: int) -> int {
    (5 * civil_doy(doe) + 2) / 153
}

/// The (year, month, day) of the proleptic Gregorian calendar for day `z`, where
/// day 0 is 1970-01-01; the year is computed in 32 bits as the code does.
pub open spec fn civil_from_days_spec(z: i64) -> (i32, i32, i32) {
    let doe = civil_doe(z as int);
    let y = yoe_plus_era(z);
    let mp = civil_mp(doe);
    let d = civil_doy(doe) - (153 * mp + 2) / 5 + 1;
    let m = if mp < 10 { mp + 3 } else { mp - 9 };
    ((y + if m <= 2 { 1int } else { 0int }) as i32, m as i32, d as i32)
}

/// The year before the January / February correction: year of era plus the era's
/// first year, the latter truncated to 32 bits.
pub open spec fn yoe_plus_era(z: i64) -> int {
    civil_yoe(civil_doe(z as int)) + ((civil_era(z as int) * 400) as i32) as int
}

/// The days for which the 32-bit year arithmetic does not overflow.
pub open spec fn civil_ok(z: i64) -> bool {
    &&& z + 719468 <= i64::MAX
    &&& i32::MIN <= yoe_plus_era(z) < i32::MAX
}

proof fn lemma_civil_ranges(z: int)
    requires
        z + 719468 <= i64::MAX,
        z >= i64::MIN,
    ensures
        0 <= civil_doe(z) <= 146096,
        -1_000_000_000_000_000 <= civil_era(z) <= 1_000_000_000_000_000,
        0 <= civil_yoe(civil_doe(z)) <= 399,
        0 <= civil_doy(civil_doe(z)) <= 365,
        0 <= civil_mp(civil_doe(z)) <= 11,
        1 <= civil_doy(civil_doe(z)) - (153 * civil_mp(civil_doe(z)) + 2) / 5 + 1 <= 31,
{
    let z1 = z + 719468;
    let n = if z1 >= 0 { z1 } else { z1 - 146096 };
    if z1 >= 0 {
        assert(0 <= z1 - (z1 / 146097) * 146097 < 146097) by (nonlinear_arith);
        assert(z1 / 146097 <= z1) by (nonlinear_arith) requires z1 >= 0;
    } else {
        let a = -n;
        assert(a > 0);
        assert(0 <= a - (a / 146097) * 146097 < 146097) by (nonlinear_arith) requires a > 0;
        assert(a / 146097 <= a) by (nonlinear_arith) requires a > 0;
        assert(civil_era(z) == -(a / 146097));
        assert(0 <= civil_doe(z) <= 146096) by (nonlinear_arith)
            requires
                a == 146096 - z1,
                0 <= a - (a / 146097) * 146097 < 146097,
                civil_doe(z) == z1 + (a / 146097) * 146097,
        ;
    }
    let doe = civil_doe(z);
    let yoe = civil_yoe(doe);
    assert(0 <= yoe <= 399) by (nonlinear_arith)
        requires
            0 <= doe <= 146096,
            yoe == (doe - doe / 1460 + doe / 36524 - doe / 146096) / 365,
    ;
    assert(0 <= civil_doy(doe) <= 365) by (nonlinear_arith)
        requires
            0 <= doe <= 146096,
            yoe == (doe - doe / 1460 + doe / 36524 - doe / 146096) / 365,
            civil_doy(doe) == doe - (365 * yoe + yoe / 4 - yoe / 100),
    ;
    let doy = civil_doy(doe);
    let mp = civil_mp(doe);
    assert(0 <= mp <= 11 && 1 <= doy - (153 * mp + 2) / 5 + 1 <= 31) by (nonlinear_arith)
        requires
            0 <= doy <= 365,
            mp == (5 * doy + 2) / 153,
    ;
}

/// The proleptic Gregorian (year, month, day) of day `z` counted from 1970-01-01.
pub fn civil_from_days(z: i64) -> (r: (i32, i32, i32))
    requires
        civil_ok(z),
    ensures
        r == civil_from_days_spec(z),
        1 <= r.1 <= 12,
        1 <= r.2 <= 31,
{
    proof { lemma_civil_ranges(z as int); }
    let z = z + 719468;
    let era = if z >= 0 { z } else { z - 146096 } / 146097;
    let doe = z - era * 146097;
    let yoe = (doe - doe / 1460 + doe / 36524 - doe / 146096) / 365;
    let y = yoe as i32 + (era * 400) as i32;
    let doy = doe - (365 * yoe + yoe / 4 - yoe / 100);
    let mp = (5 * doy + 2) / 153;
    let d = (doy - (153 * mp + 2) / 5 + 1) as i32;
    let m = (mp + if mp < 10 { 3 } else { -9 }) as i32;
    let year = y + if m <= 2 { 1 } else { 0 };
    (year, m, d)
}

/// Two decimal digits in binary-coded decimal.
pub open spec fn bcd(v: u8) -> u8 {
    (((v / 10) << 4u8) | (v % 10)) as u8
}

/// What clock register `reg` holds at `secs` seconds after the Unix epoch.
pub open spec fn cmos_reg_value(reg: u8, secs: u64) -> u8 {
    let days = secs / 86400;
    let rem = secs % 86400;
    let hour = (rem / 3600) as u8;
    let min = ((rem % 3600) / 60) as u8;
    let sec = ((rem % 3600) % 60) as u8;
    let (year, month, day) = civil_from_days_spec(days as i64);
    let ok = civil_ok(days as i64);
    let year2 = trunc_rem(year as int, 100) as u8;
    let century = trunc_div(year as int, 100) as u8;
    if reg == 0x00 {
        bcd(sec)
    } else if reg == 0x02 {
        bcd(min)
    } else if reg == 0x04 {
        bcd(hour)
    } else if reg == 0x07 {
        if ok { bcd(day as u8) } else { 0 }
    } else if reg == 0x08 {
        if ok { bcd(month as u8) } else { 0 }
    } else if reg == 0x09 {
        if ok { bcd(year2) } else { 0 }
    } else if reg == 0x32 {
        if ok { bcd(century) } else { 0 }
    } else if reg == 0x0A {
        0x26
    } else if reg == 0x0B {
        0x02
    } else if reg == 0x0C {
        0x00
    } else if reg == 0x0D {
        0x80
    } else {
        0x00
    }
}

pub open spec fn cmos_port(port: u16) -> bool {
    port == 0x70 || port == 0x71
}

/// The clock after `data` is written to `port`: a write to 0x70 selects the
/// register named by its low seven bits (bit 7 is the NMI mask).
pub open spec fn cmos_after_out(s: CmosRtc, port: u16, data: Seq<u8>) -> CmosRtc {
    if data.len() > 0 && port == 0x70 { CmosRtc { index: data[0] & 0x7f } } else { s }
}

pub open spec fn cmos_in_value(s: CmosRtc, port: u16, secs: u64) -> u8 {
    if port == 0x70 {
        s.index
    } else if port == 0x71 {
        cmos_reg_value(s.index, secs)
    } else {
        0
    }
}

/// The index port reads back the register selected, without the NMI-mask bit.
pub proof fn law_index_roundtrip(s: CmosRtc, data: Seq<u8>, secs: u64)
    requires
        data.len() > 0,
    ensures
        cmos_in_value(cmos_after_out(s, 0x70, data), 0x70, secs) == data[0] & 0x7f,
{
}

/// Binary-coded decimal keeps the tens in the high nibble and the units in the low
/// one, for the values below 100 that the clock stores.
pub proof fn law_bcd_digits(v: u8)
    requires
        v < 100,
    ensures
        bcd(v) >> 4u8 == v / 10,
        bcd(v) & 0xf == v % 10,
{
    let t = v / 10;
    let u = v % 10;
    assert(t < 10 && u < 10);
    assert(((((t << 4u8) | u) as u8) >> 4u8) == t && ((((t << 4u8) | u) as u8) & 0xf) == u) by (bit_vector)
        requires
            t < 10,
            u < 10,
    ;
}

impl CmosRtc {
    pub fn new() -> (r: Self)
        ensures
            r.index == 0,
    {
        CmosRtc { index: 0 }
    }

    pub fn is_port(port: u16) -> (r: bool)
        ensures
            r == cmos_port(port),
    {
        port == 0x70 || port == 0x71
    }

    pub fn handles_port(&self, port: u16) -> (r: bool)
        ensures
            r == cmos_port(port),
    {
        Self::is_port(port)
    }

    pub fn to_bcd(v: u8) -> (r: u8)
        ensures
            r == bcd(v),
    {
        ((v / 10) << 4) | (v % 10)
    }

    /// Register `reg` at `secs` seconds after the Unix epoch.
    pub fn read_reg_at(reg: u8, secs: u64) -> (r: u8)
        ensures
            r == cmos_reg_value(reg, secs),
    {
        let days = secs / 86_400;
        let mut rem = secs % 86_400;
        let hour = (rem / 3600) as u8;
        rem = rem % 3600;
        let min = (rem / 60) as u8;
        let sec = (rem % 60) as u8;
        if reg == 0x00 {
            return Self::to_bcd(sec);
        } else if reg == 0x02 {
            return Self::to_bcd(min);
        } else if reg == 0x04 {
            return Self::to_bcd(hour);
        } else if reg == 0x0A {
            return 0x26;
        } else if reg == 0x0B {
            return 0x02;
        } else if reg == 0x0C {
            return 0x00;
        } else if reg == 0x0D {
            return 0x80;
        } else if reg != 0x07 && reg != 0x08 && reg != 0x09 && reg != 0x32 {
            return 0x00;
        }
        if !Self::days_supported(days as i64) {
            return 0;
        }
        let (year, month, day) = civil_from_days(days as i64);
        let year2 = (year % 100) as u8;
        let century = (year / 100) as u8;
        if reg == 0x07 {
            Self::to_bcd(day as u8)
        } else if reg == 0x08 {
            Self::to_bcd(month as u8)
        } else if reg == 0x09 {
            Self::to_bcd(year2)
        } else {
            Self::to_bcd(century)
        }
    }

    /// Whether the date of day `z` can be computed without 32-bit overflow.
    pub fn days_supported(z: i64) -> (r: bool)
        ensures
            r == civil_ok(z),
    {
        if z > i64::MAX - 719468 {
            return false;
        }
        proof { lemma_civil_ranges(z as int); }
        let z1 = z + 719468;
        let era = if z1 >= 0 { z1 } else { z1 - 146096 } / 146097;
        let doe = z1 - era * 146097;
        let yoe = (doe - doe / 1460 + doe / 36524 - doe / 146096) / 365;
        let y = yoe + ((era * 400) as i32) as i64;
        i32::MIN as i64 <= y && y < i32::MAX as i64
    }

    /// Register `reg` now.
    pub fn read_reg(&self, reg: u8) -> (r: u8)
        ensures
            exists|secs: u64| r == cmos_reg_value(reg, secs),
    {
        let secs = unix_time_secs();
        Self::read_reg_at(reg, secs)
    }

    pub fn io_out(&mut self, port: u16, data: &[u8])
        ensures
            *final(self) == cmos_after_out(*old(self), port, data@),
    {
        if data.len() == 0 {
            return;
        }
        let v = data[0];
        if port == 0x70 {
            self.index = v & 0x7F;
        }
    }

    pub fn io_in(&mut self, port: u16, data: &mut [u8])
        ensures
            *final(self) == *old(self),
            exists|secs: u64| final(data)@ == filled(old(data)@.len(), #[trigger] cmos_in_value(*old(self), port, secs)),
    {
        let secs = unix_time_secs();
        let v = if port == 0x70 {
            self.index
        } else if port == 0x71 {
            Self::read_reg_at(self.index, secs)
        } else {
            0
        };
        fill(data, v);
        assert(data@ == filled(old(data)@.len(), cmos_in_value(*old(self), port, secs)));
    }
}

impl PioDevice for CmosRtc {
    fn handles_port(&self, port: u16) -> (r: bool)
        ensures
            r == cmos_port(port),
    {
        CmosRtc::handles_port(self, port)
    }

    /// The clock registers show the host's time at the read: some second since the epoch.
    fn io_in(&mut self, port: u16, data: &mut [u8])
        ensures
            *final(self) == *old(self),
            exists|secs: u64| final(data)@ == filled(old(data)@.len(), #[trigger] cmos_in_value(*old(self), port, secs)),
    {
        CmosRtc::io_in(self, port, data)
    }

    fn io_out(&mut self, port: u16, data: &[u8])
        ensures
            *final(self) == cmos_after_out(*old(self), port, data@),
    {
        CmosRtc::io_out(self, port, data)
    }
}

} // verus!
