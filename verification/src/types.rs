//! Values the sampler reports or is configured with.
use vstd::prelude::*;
use vstd::string::StrSliceExecFns;
use vstd::string::StringExecFns;

use crate::text::{
    ascii_lower, ascii_lower_seq, decimal, decimal_digit, decimal_padded, hex_byte, push_char,
    push_hex_byte, zero_padded,
};

verus! {

/// How a sampling run is bounded: by volume (`Quantitative`, code 0) or by
/// time (`Timed`, code 1).
#[derive(Debug, Clone, Copy, PartialEq, Eq, Structural)]
pub enum SampleMode {
    Quantitative,
    Timed,
}

/// The code of a sample mode on the wire.
pub open spec fn spec_mode_code(mode: SampleMode) -> u8 {
    match mode {
        SampleMode::Quantitative => 0,
        SampleMode::Timed => 1,
    }
}

/// The sample mode a command-line flag names, compared without regard to ASCII
/// case: "quant", "quantitative" or "0" for `Quantitative`; "timed", "time" or
/// "1" for `Timed`.
pub open spec fn spec_mode_from_flag(flag: Seq<char>) -> Option<SampleMode> {
    let f = ascii_lower_seq(flag);
    if f == seq!['q', 'u', 'a', 'n', 't'] || f == seq![
        'q',
        'u',
        'a',
        'n',
        't',
        'i',
        't',
        'a',
        't',
        'i',
        'v',
        'e',
    ] || f == seq!['0'] {
        Some(SampleMode::Quantitative)
    } else if f == seq!['t', 'i', 'm', 'e', 'd'] || f == seq!['t', 'i', 'm', 'e'] || f == seq![
        '1',
    ] {
        Some(SampleMode::Timed)
    } else {
        None
    }
}

/// Whether `s`, lower-cased in ASCII, is `word`.
fn lower_eq(s: &str, word: &str) -> (r: bool)
    ensures
        r == (ascii_lower_seq(s@) == word@),
{
    let n = s.unicode_len();
    let m = word.unicode_len();
    if n != m {
        assert(ascii_lower_seq(s@).len() != word@.len());
        return false;
    }
    let mut i: usize = 0;
    while i < n
        invariant
            n == s@.len(),
            m == word@.len(),
            n == m,
            i <= n,
            forall|j: int| 0 <= j < i ==> ascii_lower(#[trigger] s@[j]) == word@[j],
        decreases n - i,
    {
        let c = s.get_char(i);
        let w = word.get_char(i);
        let lc = if 'A' <= c && c <= 'Z' {
            ((c as u32) + 32) as u8 as char
        } else {
            c
        };
        assert(lc == ascii_lower(c));
        if lc != w {
            assert(ascii_lower_seq(s@)[i as int] != word@[i as int]);
            return false;
        }
        i += 1;
    }
    assert(ascii_lower_seq(s@) =~= word@);
    true
}

impl SampleMode {
    /// The sample mode that a command-line flag names (see `spec_mode_from_flag`).
    pub fn from_flag(flag: &str) -> (mode: Option<SampleMode>)
        ensures
            mode == spec_mode_from_flag(flag@),
    {
        proof {
            reveal_strlit("quant");
            reveal_strlit("quantitative");
            reveal_strlit("0");
            reveal_strlit("timed");
            reveal_strlit("time");
            reveal_strlit("1");
            assert("quant"@ =~= seq!['q', 'u', 'a', 'n', 't']);
            assert("quantitative"@ =~= seq![
                'q',
                'u',
                'a',
                'n',
                't',
                'i',
                't',
                'a',
                't',
                'i',
                'v',
                'e',
            ]);
            assert("0"@ =~= seq!['0']);
            assert("timed"@ =~= seq!['t', 'i', 'm', 'e', 'd']);
            assert("time"@ =~= seq!['t', 'i', 'm', 'e']);
            assert("1"@ =~= seq!['1']);
        }
        if lower_eq(flag, "quant") || lower_eq(flag, "quantitative") || lower_eq(flag, "0") {
            Some(SampleMode::Quantitative)
        } else if lower_eq(flag, "timed") || lower_eq(flag, "time") || lower_eq(flag, "1") {
            Some(SampleMode::Timed)
        } else {
            None
        }
    }

    /// The code of this mode on the wire.
    pub fn code(self) -> (c: u8)
        ensures
            c == spec_mode_code(self),
    {
        match self {
            SampleMode::Quantitative => 0,
            SampleMode::Timed => 1,
        }
    }
}

/// Naming a mode by the decimal digit of its code gives that mode back.
pub proof fn lemma_mode_flag_of_code(mode: SampleMode)
    ensures
        spec_mode_from_flag(seq![decimal_digit(spec_mode_code(mode) as nat)]) == Some(mode),
{
    let f = seq![decimal_digit(spec_mode_code(mode) as nat)];
    assert(decimal_digit(0) == '0');
    assert(decimal_digit(1) == '1');
    assert(ascii_lower_seq(f) =~= f);
    match mode {
        SampleMode::Quantitative => {
            assert(f =~= seq!['0']);
        },
        SampleMode::Timed => {
            assert(f =~= seq!['1']);
            assert(f != seq!['0']) by {
                assert(f[0] != seq!['0'][0]);
            }
        },
    }
}

/// What the sampler is doing.
#[derive(Debug, Clone, Copy, PartialEq, Eq, Structural)]
pub enum DeviceStatus {
    Idle,
    Waiting,
    Preparing,
    Sampling,
    TempDefrost,
    Defrosting,
    Paused,
    Stopped,
    Cooling,
    /// A status byte with no known meaning.
    Unknown(u8),
}

/// The status that a status byte reports.
pub open spec fn spec_status_from_byte(b: u8) -> DeviceStatus {
    if b == 0x00 {
        DeviceStatus::Idle
    } else if b == 0x01 {
        DeviceStatus::Waiting
    } else if b == 0x03 {
        DeviceStatus::Preparing
    } else if b == 0x04 {
        DeviceStatus::Sampling
    } else if b == 0x05 {
        DeviceStatus::TempDefrost
    } else if b == 0x06 {
        DeviceStatus::Defrosting
    } else if b == 0x07 {
        DeviceStatus::Paused
    } else if b == 0x08 {
        DeviceStatus::Stopped
    } else if b == 0x09 {
        DeviceStatus::Cooling
    } else {
        DeviceStatus::Unknown(b)
    }
}

/// The text shown for a status.
pub open spec fn spec_status_text(status: DeviceStatus) -> Seq<char> {
    match status {
        DeviceStatus::Idle => "空闲"@,
        DeviceStatus::Waiting => "等待"@,
        DeviceStatus::Preparing => "准备"@,
        DeviceStatus::Sampling => "采样"@,
        DeviceStatus::TempDefrost => "临时化霜"@,
        DeviceStatus::Defrosting => "化霜"@,
        DeviceStatus::Paused => "暂停"@,
        DeviceStatus::Stopped => "停止"@,
        DeviceStatus::Cooling => "冷却"@,
        DeviceStatus::Unknown(v) => "未知(0x"@ + hex_byte(v) + ")"@,
    }
}

impl DeviceStatus {
    /// The status that a status byte reports.
    pub fn from_byte(b: u8) -> (status: DeviceStatus)
        ensures
            status == spec_status_from_byte(b),
    {
        match b {
            0x00 => DeviceStatus::Idle,
            0x01 => DeviceStatus::Waiting,
            0x03 => DeviceStatus::Preparing,
            0x04 => DeviceStatus::Sampling,
            0x05 => DeviceStatus::TempDefrost,
            0x06 => DeviceStatus::Defrosting,
            0x07 => DeviceStatus::Paused,
            0x08 => DeviceStatus::Stopped,
            0x09 => DeviceStatus::Cooling,
            other => DeviceStatus::Unknown(other),
        }
    }

    /// The text shown for this status, as "采样" or "未知(0x0A)".
    pub fn to_display_string(&self) -> (s: String)
        ensures
            s@ == spec_status_text(*self),
    {
        match *self {
            DeviceStatus::Idle => String::from_str("空闲"),
            DeviceStatus::Waiting => String::from_str("等待"),
            DeviceStatus::Preparing => String::from_str("准备"),
            DeviceStatus::Sampling => String::from_str("采样"),
            DeviceStatus::TempDefrost => String::from_str("临时化霜"),
            DeviceStatus::Defrosting => String::from_str("化霜"),
            DeviceStatus::Paused => String::from_str("暂停"),
            DeviceStatus::Stopped => String::from_str("停止"),
            DeviceStatus::Cooling => String::from_str("冷却"),
            DeviceStatus::Unknown(v) => {
                let mut s = String::from_str("未知(0x");
                push_hex_byte(&mut s, v);
                s.append(")");
                s
            },
        }
    }
}

/// Distinct status bytes report distinct statuses.
pub proof fn lemma_status_from_byte_injective(a: u8, b: u8)
    requires
        spec_status_from_byte(a) == spec_status_from_byte(b),
    ensures
        a == b,
{
}

/// A date and time on the device clock.
#[derive(Debug, Clone, Copy, PartialEq, Eq, Structural)]
pub struct DeviceDateTime {
    pub year: u16,
    pub month: u8,
    pub day: u8,
    pub hour: u8,
    pub minute: u8,
    pub second: u8,
}

/// The date and time in bytes `yy mm dd hh mi [ss]` (years counted from 2000;
/// the second is 0 when only five bytes are given).
pub open spec fn spec_datetime_from_bytes(b: Seq<u8>) -> DeviceDateTime
    recommends
        b.len() >= 5,
{
    DeviceDateTime {
        year: (2000 + b[0]) as u16,
        month: b[1],
        day: b[2],
        hour: b[3],
        minute: b[4],
        second: if b.len() >= 6 {
            b[5]
        } else {
            0
        },
    }
}

/// The text shown for a date and time: `YYYY-MM-DD hh:mm:ss`, each field
/// zero-padded to its width.
pub open spec fn spec_datetime_text(t: DeviceDateTime) -> Seq<char> {
    decimal_padded(t.year as nat, 4) + seq!['-'] + decimal_padded(t.month as nat, 2) + seq!['-']
        + decimal_padded(t.day as nat, 2) + seq![' '] + decimal_padded(t.hour as nat, 2) + seq![
        ':',
    ] + decimal_padded(t.minute as nat, 2) + seq![':'] + decimal_padded(t.second as nat, 2)
}

proof fn lemma_decimal_step(n: nat)
    ensures
        n < 10 ==> decimal(n) == seq![decimal_digit(n)],
        n >= 10 ==> decimal(n) == decimal(n / 10).push(decimal_digit(n % 10)),
        decimal(n).len() >= 1,
    decreases n,
{
    if n >= 10 {
        lemma_decimal_step(n / 10);
    }
}

/// Appends the decimal notation of `n`.
fn push_decimal(s: &mut String, n: u16)
    ensures
        final(s)@ == old(s)@ + decimal(n as nat),
    decreases n,
{
    let ghost before = s@;
    proof {
        lemma_decimal_step(n as nat);
    }
    if n >= 10 {
        push_decimal(s, n / 10);
    }
    push_char(s, ((n % 10) as u8 + 48) as char);
    assert(s@ =~= before + decimal(n as nat));
}

/// The number of decimal digits of `n`.
fn decimal_len(n: u16) -> (len: usize)
    ensures
        len == decimal(n as nat).len(),
        len <= n + 1,
    decreases n,
{
    proof {
        lemma_decimal_step(n as nat);
    }
    if n >= 10 {
        decimal_len(n / 10) + 1
    } else {
        1
    }
}

/// Appends the decimal notation of `n`, zero-padded to `width` characters.
fn push_decimal_padded(s: &mut String, n: u16, width: usize)
    ensures
        final(s)@ == old(s)@ + decimal_padded(n as nat, width as nat),
{
    let ghost before = s@;
    let len = decimal_len(n);
    let mut k: usize = len;
    while k < width
        invariant
            len <= k,
            k <= width || k == len,
            s@ == before + Seq::new((k - len) as nat, |i: int| '0'),
        decreases width - k,
    {
        push_char(s, '0');
        assert(s@ =~= before + Seq::new((k + 1 - len) as nat, |i: int| '0'));
        k += 1;
    }
    push_decimal(s, n);
    assert(s@ =~= before + zero_padded(decimal(n as nat), width as nat));
}

impl DeviceDateTime {
    /// The date and time in bytes `yy mm dd hh mi [ss]`; the second is 0 when
    /// fewer than six bytes are given.
    pub fn from_bytes(b: &[u8]) -> (t: DeviceDateTime)
        requires
            b.len() >= 5,
        ensures
            t == spec_datetime_from_bytes(b@),
    {
        DeviceDateTime {
            year: 2000 + b[0] as u16,
            month: b[1],
            day: b[2],
            hour: b[3],
            minute: b[4],
            second: if b.len() >= 6 {
                b[5]
            } else {
                0
            },
        }
    }

    /// The text shown for this date and time, as `2024-03-05 08:09:00`.
    pub fn to_display_string(&self) -> (s: String)
        ensures
            s@ == spec_datetime_text(*self),
    {
        let mut s = String::new();
        push_decimal_padded(&mut s, self.year, 4);
        push_char(&mut s, '-');
        push_decimal_padded(&mut s, self.month as u16, 2);
        push_char(&mut s, '-');
        push_decimal_padded(&mut s, self.day as u16, 2);
        push_char(&mut s, ' ');
        push_decimal_padded(&mut s, self.hour as u16, 2);
        push_char(&mut s, ':');
        push_decimal_padded(&mut s, self.minute as u16, 2);
        push_char(&mut s, ':');
        push_decimal_padded(&mut s, self.second as u16, 2);
        assert(s@ =~= spec_datetime_text(*self));
        s
    }
}

/// The status codes: 00 idle, 01 waiting, 03 preparing, 04 sampling, 05
/// temporary defrost, 06 defrosting, 07 paused, 08 stopped, 09 cooling; every
/// other byte is reported as unknown with that byte.
pub proof fn lemma_status_codes(b: u8)
    ensures
        (spec_status_from_byte(b) == DeviceStatus::Idle) <==> b == 0x00,
        (spec_status_from_byte(b) == DeviceStatus::Waiting) <==> b == 0x01,
        (spec_status_from_byte(b) == DeviceStatus::Preparing) <==> b == 0x03,
        (spec_status_from_byte(b) == DeviceStatus::Sampling) <==> b == 0x04,
        (spec_status_from_byte(b) == DeviceStatus::TempDefrost) <==> b == 0x05,
        (spec_status_from_byte(b) == DeviceStatus::Defrosting) <==> b == 0x06,
        (spec_status_from_byte(b) == DeviceStatus::Paused) <==> b == 0x07,
        (spec_status_from_byte(b) == DeviceStatus::Stopped) <==> b == 0x08,
        (spec_status_from_byte(b) == DeviceStatus::Cooling) <==> b == 0x09,
        (spec_status_from_byte(b) == DeviceStatus::Unknown(b)) <==> (b == 0x02 || b > 0x09),
        spec_status_from_byte(b) is Unknown ==> spec_status_from_byte(b) == DeviceStatus::Unknown(b),
{
}

/// The bytes of a date and time: year counted from 2000, then month, day, hour,
/// minute, and the second when there is a sixth byte (0 otherwise).
pub proof fn lemma_datetime_from_bytes(b: Seq<u8>)
    requires
        b.len() >= 5,
    ensures
        spec_datetime_from_bytes(b).year as int == 2000 + b[0],
        spec_datetime_from_bytes(b).month == b[1],
        spec_datetime_from_bytes(b).day == b[2],
        spec_datetime_from_bytes(b).hour == b[3],
        spec_datetime_from_bytes(b).minute == b[4],
        spec_datetime_from_bytes(b).second == if b.len() >= 6 {
            b[5]
        } else {
            0u8
        },
{
}

/// The mode flags, compared without regard to ASCII case: "quant",
/// "quantitative" and "0" name `Quantitative`, "timed", "time" and "1" name
/// `Timed`, and no other text names a mode; and the codes are 0 and 1.
pub proof fn lemma_mode_flags(flag: Seq<char>)
    ensures
        ({
            let f = ascii_lower_seq(flag);
            &&& (spec_mode_from_flag(flag) == Some(SampleMode::Quantitative)) <==> (f == seq![
                'q',
                'u',
                'a',
                'n',
                't',
            ] || f == seq!['q', 'u', 'a', 'n', 't', 'i', 't', 'a', 't', 'i', 'v', 'e'] || f
                == seq!['0'])
            &&& (spec_mode_from_flag(flag) == Some(SampleMode::Timed)) <==> (f == seq![
                't',
                'i',
                'm',
                'e',
                'd',
            ] || f == seq!['t', 'i', 'm', 'e'] || f == seq!['1'])
            &&& spec_mode_code(SampleMode::Quantitative) == 0
            &&& spec_mode_code(SampleMode::Timed) == 1
        }),
{
    let f = ascii_lower_seq(flag);
    let q1 = seq!['q', 'u', 'a', 'n', 't'];
    let q2 = seq!['q', 'u', 'a', 'n', 't', 'i', 't', 'a', 't', 'i', 'v', 'e'];
    let q3 = seq!['0'];
    let t1 = seq!['t', 'i', 'm', 'e', 'd'];
    let t2 = seq!['t', 'i', 'm', 'e'];
    let t3 = seq!['1'];
    if f == t1 || f == t2 || f == t3 {
        assert(f != q1 && f != q2 && f != q3) by {
            if f == t1 { assert(t1[0] != q1[0]); }
            if f == t2 { assert(t2[0] != q1[0]); }
            if f == t3 { assert(t3[0] != q3[0]); }
        }
    }
}

/// The case of ASCII letters is ignored: flags that lower-case alike name the
/// same mode.
pub proof fn lemma_mode_flag_ignores_case(a: Seq<char>, b: Seq<char>)
    requires
        ascii_lower_seq(a) == ascii_lower_seq(b),
    ensures
        spec_mode_from_flag(a) == spec_mode_from_flag(b),
{
}

} // verus!
