//! A small catalog of board-level parts, decoded from manufacturer part
//! numbers.  Quantities are held as exact integers: resistance in milliohms,
//! capacitance in picofarads, voltage in millivolts, current in milliamperes,
//! tolerance in basis points (one percent is one hundred), temperature
//! coefficients in parts per million.

use vstd::prelude::*;
use crate::text::str_eq;

verus! {

/// A chip package size code.
#[derive(Clone, Copy, Debug, PartialEq, Eq, Structural)]
pub enum SizeCode {
    I0201,
    I0402,
    I0603,
    I0805,
    I1206,
    I1210,
    I1812,
    I2220,
}

#[derive(Clone, Copy, Debug, PartialEq, Eq, Structural)]
pub enum DielectricCode {
    X5R,
    X7R,
}

#[derive(Clone, Copy, Debug, PartialEq, Eq, Structural)]
pub enum CapacitorKind {
    MultiLayerChip(DielectricCode),
    Tantalum,
}

#[derive(Clone, Copy, Debug, PartialEq, Eq, Structural)]
pub enum CapacitorTolerance {
    FivePercent,
    TenPercent,
    TwentyPercent,
}

#[derive(Clone, Copy, Debug, PartialEq, Eq, Structural)]
pub enum ResistorKind {
    ThickFilmChip,
    ThinFilmChip,
}

#[derive(Clone, Copy, Debug, PartialEq, Eq, Structural)]
pub enum PassiveKind {
    Positive,
    Negative,
}

#[derive(Clone, Copy, Debug, PartialEq, Eq, Structural)]
pub enum SignalKind {
    Any,
}

#[derive(Clone, Copy, Debug, PartialEq, Eq, Structural)]
pub enum PinKind {
    Passive(PassiveKind),
    Input(SignalKind),
    PowerSink,
    PowerSource,
    PowerReturn,
}

/// One electrical pin of a part.
pub struct EPin {
    pub kind: PinKind,
    pub name: String,
}

/// The maker of a part.
pub struct Manufacturer {
    pub name: String,
}

/// What every cataloged part carries.
pub struct PartDetails {
    pub manufacturer: Manufacturer,
    pub size: Option<SizeCode>,
    pub pins: Vec<EPin>,
}

/// A chip resistor.
pub struct Resistor {
    pub details: PartDetails,
    pub kind: ResistorKind,
    pub value_milliohms: u64,
    pub tolerance_bp: u64,
    pub tempco_ppm: Option<u64>,
}

/// A chip capacitor.
pub struct Capacitor {
    pub details: PartDetails,
    pub kind: CapacitorKind,
    pub value_pf: u64,
    pub voltage_mv: u64,
    pub tolerance: CapacitorTolerance,
}

/// A discrete diode.
#[derive(Debug, PartialEq, Eq)]
pub enum DiodeKind {
    Led(String),
}

pub struct Diode {
    pub details: PartDetails,
    pub kind: DiodeKind,
    pub forward_drop_mv: u64,
}

/// A fixed linear regulator.
pub struct Regulator {
    pub details: PartDetails,
    pub input_max_voltage_mv: u64,
    pub output_nominal_voltage_mv: u64,
    pub output_max_current_ma: u64,
}

/// The numeric value of a decimal digit character.
pub open spec fn digit(c: char) -> int {
    c as int - '0' as int
}

pub open spec fn is_digit(c: char) -> bool {
    '0' as int <= c as int <= '9' as int
}

/// The value of a digit string, most significant digit first.
pub open spec fn digits_val(s: Seq<char>) -> int
    decreases s.len(),
{
    if s.len() == 0 {
        0
    } else {
        digits_val(s.drop_last()) * 10 + digit(s.last())
    }
}

fn char_digit(c: char) -> (r: Option<u64>)
    ensures
        r is Some <==> is_digit(c),
        r is Some ==> r->0 == digit(c) && r->0 <= 9,
{
    let v = c as u32;
    if v >= 48 && v <= 57 {
        Option::Some((v - 48) as u64)
    } else {
        Option::None
    }
}

/// Reads up to four decimal digits out of `s[from..to]`.
fn parse_digits(s: &str, from: usize, to: usize) -> (r: Option<u64>)
    requires
        from <= to <= s@.len(),
        to - from <= 4,
    ensures
        r is Some <==> (forall|j: int| from <= j < to ==> is_digit(s@[j])),
        r is Some ==> r->0 == digits_val(s@.subrange(from as int, to as int)) && r->0 <= 9999,
{
    let mut val: u64 = 0;
    let mut i: usize = from;
    proof {
        assert(s@.subrange(from as int, from as int) =~= Seq::<char>::empty());
    }
    while i < to
        invariant
            from <= i <= to,
            to <= s@.len(),
            to - from <= 4,
            forall|j: int| from <= j < i ==> is_digit(s@[j]),
            val == digits_val(s@.subrange(from as int, i as int)),
            val < pow10(i - from),
        decreases to - i,
    {
        let c = s.get_char(i);
        let d = match char_digit(c) {
            Option::Some(d) => d,
            Option::None => {
                return Option::None;
            },
        };
        proof {
            assert(i - from <= 3);
            assert(val < pow10(3));
        }
        val = val * 10 + d;
        proof {
            let sub = s@.subrange(from as int, i + 1);
            assert(sub.drop_last() =~= s@.subrange(from as int, i as int));
            assert(sub.last() == s@[i as int]);
            assert(forall|j: int| 0 <= j < sub.len() ==> is_digit(sub[j]));
            lemma_digits_bound(sub);
        }
        i = i + 1;
    }
    proof {
        assert(val < pow10(to - from));
        assert(pow10(to - from) <= 10000);
    }
    Option::Some(val)
}

/// A digit string's value is below ten to its length.
proof fn lemma_digits_bound(s: Seq<char>)
    requires
        forall|j: int| 0 <= j < s.len() ==> is_digit(s[j]),
        s.len() <= 4,
    ensures
        0 <= digits_val(s),
        digits_val(s) < pow10(s.len() as int),
    decreases s.len(),
{
    if s.len() > 0 {
        assert(forall|j: int| 0 <= j < s.drop_last().len() ==> is_digit(s.drop_last()[j]));
        lemma_digits_bound(s.drop_last());
        assert(0 <= digit(s.last()) <= 9);
    }
}

/// Whether `s[from..from+4]` spells the size code.
fn read_size(s: &str, from: usize) -> (r: Option<SizeCode>)
    requires
        from + 4 <= s@.len(),
        from + 4 <= usize::MAX,
    ensures
        r == spec_size(s@.subrange(from as int, from + 4)),
{
    let sub = s.substring_char(from, from + 4);
    if str_eq(sub, "0201") {
        Option::Some(SizeCode::I0201)
    } else if str_eq(sub, "0402") {
        Option::Some(SizeCode::I0402)
    } else if str_eq(sub, "0603") {
        Option::Some(SizeCode::I0603)
    } else if str_eq(sub, "0805") {
        Option::Some(SizeCode::I0805)
    } else if str_eq(sub, "1206") {
        Option::Some(SizeCode::I1206)
    } else if str_eq(sub, "1210") {
        Option::Some(SizeCode::I1210)
    } else if str_eq(sub, "1812") {
        Option::Some(SizeCode::I1812)
    } else if str_eq(sub, "2220") {
        Option::Some(SizeCode::I2220)
    } else {
        Option::None
    }
}

/// The size a four-character code names.
pub open spec fn spec_size(c: Seq<char>) -> Option<SizeCode> {
    if c == "0201"@ {
        Option::Some(SizeCode::I0201)
    } else if c == "0402"@ {
        Option::Some(SizeCode::I0402)
    } else if c == "0603"@ {
        Option::Some(SizeCode::I0603)
    } else if c == "0805"@ {
        Option::Some(SizeCode::I0805)
    } else if c == "1206"@ {
        Option::Some(SizeCode::I1206)
    } else if c == "1210"@ {
        Option::Some(SizeCode::I1210)
    } else if c == "1812"@ {
        Option::Some(SizeCode::I1812)
    } else if c == "2220"@ {
        Option::Some(SizeCode::I2220)
    } else {
        Option::None
    }
}

/// The tolerance a letter code names, in basis points.
pub open spec fn spec_tolerance_bp(c: char) -> Option<int> {
    if c == 'B' {
        Option::Some(10)
    } else if c == 'D' {
        Option::Some(50)
    } else if c == 'F' {
        Option::Some(100)
    } else if c == 'G' {
        Option::Some(200)
    } else if c == 'J' {
        Option::Some(500)
    } else {
        Option::None
    }
}

fn read_tolerance_bp(c: char) -> (r: Option<u64>)
    ensures
        r is Some <==> spec_tolerance_bp(c) is Some,
        r is Some ==> r->0 == spec_tolerance_bp(c)->0,
{
    match c {
        'B' => Option::Some(10),
        'D' => Option::Some(50),
        'F' => Option::Some(100),
        'G' => Option::Some(200),
        'J' => Option::Some(500),
        _ => Option::None,
    }
}

/// The capacitor tolerance a letter code names.
pub open spec fn spec_cap_tolerance(c: char) -> Option<CapacitorTolerance> {
    if c == 'J' {
        Option::Some(CapacitorTolerance::FivePercent)
    } else if c == 'K' {
        Option::Some(CapacitorTolerance::TenPercent)
    } else if c == 'M' {
        Option::Some(CapacitorTolerance::TwentyPercent)
    } else {
        Option::None
    }
}

fn read_cap_tolerance(c: char) -> (r: Option<CapacitorTolerance>)
    ensures
        r == spec_cap_tolerance(c),
{
    match c {
        'J' => Option::Some(CapacitorTolerance::FivePercent),
        'K' => Option::Some(CapacitorTolerance::TenPercent),
        'M' => Option::Some(CapacitorTolerance::TwentyPercent),
        _ => Option::None,
    }
}

/// Ten to the given power, for single-digit exponents.
pub open spec fn pow10(e: int) -> int {
    if e <= 0 {
        1
    } else if e == 1 {
        10
    } else if e == 2 {
        100
    } else if e == 3 {
        1000
    } else if e == 4 {
        10000
    } else if e == 5 {
        100000
    } else if e == 6 {
        1000000
    } else if e == 7 {
        10000000
    } else if e == 8 {
        100000000
    } else {
        1000000000
    }
}

fn pow10_exec(e: u64) -> (r: u64)
    requires
        e <= 9,
    ensures
        r == pow10(e as int),
{
    match e {
        0 => 1,
        1 => 10,
        2 => 100,
        3 => 1000,
        4 => 10000,
        5 => 100000,
        6 => 1000000,
        7 => 10000000,
        8 => 100000000,
        _ => 1000000000,
    }
}

/// The value a three-character capacitance code names, in picofarads: two
/// significant digits and a power-of-ten exponent.
pub open spec fn spec_cap_code_pf(c: Seq<char>) -> Option<int> {
    if c.len() == 3 && is_digit(c[0]) && is_digit(c[1]) && is_digit(c[2]) {
        Option::Some((digit(c[0]) * 10 + digit(c[1])) * pow10(digit(c[2])))
    } else {
        Option::None
    }
}

/// Reads the three-digit capacitance code at `s[from..from+3]`.
fn read_cap_code_pf(s: &str, from: usize) -> (r: Option<u64>)
    requires
        from + 3 <= s@.len(),
        from + 3 <= usize::MAX,
    ensures
        r is Some <==> spec_cap_code_pf(s@.subrange(from as int, from + 3)) is Some,
        r is Some ==> r->0 == spec_cap_code_pf(s@.subrange(from as int, from + 3))->0,
{
    let d0 = match char_digit(s.get_char(from)) {
        Option::Some(d) => d,
        Option::None => {
            return Option::None;
        },
    };
    let d1 = match char_digit(s.get_char(from + 1)) {
        Option::Some(d) => d,
        Option::None => {
            return Option::None;
        },
    };
    let d2 = match char_digit(s.get_char(from + 2)) {
        Option::Some(d) => d,
        Option::None => {
            return Option::None;
        },
    };
    let base = d0 * 10 + d1;
    let scale = pow10_exec(d2);
    proof {
        assert(base <= 99);
        assert(scale <= 1000000000);
    }
    proof {
        assert(s@.subrange(from as int, from + 3)[0] == s@[from as int]);
        assert(s@.subrange(from as int, from + 3)[1] == s@[from + 1]);
        assert(s@.subrange(from as int, from + 3)[2] == s@[from + 2]);
    }
    Option::Some(base * scale)
}

/// Whether `s` starts with the given prefix.
fn has_prefix(s: &str, prefix: &str) -> (r: bool)
    ensures
        r == (prefix@.len() <= s@.len() && s@.subrange(0, prefix@.len() as int) == prefix@),
{
    let plen = prefix.unicode_len();
    if plen > s.unicode_len() {
        return false;
    }
    let head = s.substring_char(0, plen);
    str_eq(head, prefix)
}

fn pin(name: &str, kind: PinKind) -> (r: EPin)
    ensures
        r.kind == kind,
        r.name@ == name@,
{
    EPin { kind, name: name.to_owned() }
}

/// A resistance multiplier letter.
pub open spec fn is_mult(c: char) -> bool {
    c == 'R' || c == 'K' || c == 'M'
}

/// The multiplier a letter names, in milliohms.
pub open spec fn mult_milliohms(c: char) -> int {
    if c == 'R' {
        1000
    } else if c == 'K' {
        1000000
    } else {
        1000000000
    }
}

/// The first multiplier letter's position, or the length where none occurs.
pub open spec fn first_mult(v: Seq<char>) -> int
    decreases v.len(),
{
    if v.len() == 0 {
        0
    } else if is_mult(v[0]) {
        0
    } else {
        1 + first_mult(v.subrange(1, v.len() as int))
    }
}

proof fn lemma_first_mult_at(v: Seq<char>, i: int)
    requires
        0 <= i <= v.len(),
        forall|j: int| 0 <= j < i ==> !is_mult(v[j]),
        i < v.len() ==> is_mult(v[i]),
    ensures
        first_mult(v) == i,
    decreases i,
{
    if v.len() == 0 {
    } else if i == 0 {
    } else {
        let rest = v.subrange(1, v.len() as int);
        assert(forall|j: int| 0 <= j < i - 1 ==> rest[j] == v[j + 1]);
        if i < v.len() {
            assert(rest[i - 1] == v[i]);
        }
        lemma_first_mult_at(rest, i - 1);
    }
}

/// A resistance code such as `0R47` or `20K`: digits around one multiplier
/// letter, the fraction scaled exactly, in milliohms.
pub open spec fn spec_resistance_milliohms(v: Seq<char>) -> Option<int> {
    let p = first_mult(v);
    if p < v.len() && 1 <= p <= 4 && v.len() - p - 1 <= 3 && (forall|j: int|
        0 <= j < p ==> is_digit(v[j])) && (forall|j: int| p < j < v.len() ==> is_digit(v[j])) {
        let left = digits_val(v.subrange(0, p));
        let right = digits_val(v.subrange(p + 1, v.len() as int));
        let m = mult_milliohms(v[p]);
        Option::Some(left * m + right * (m / pow10(v.len() - p - 1)))
    } else {
        Option::None
    }
}

/// The position of the first multiplier letter in `s[from..to]`, or `to`.
fn find_mult(s: &str, from: usize, to: usize) -> (p: usize)
    requires
        from <= to <= s@.len(),
    ensures
        from <= p <= to,
        forall|j: int| from <= j < p ==> !is_mult(s@[j]),
        p < to ==> is_mult(s@[p as int]),
{
    let mut i: usize = from;
    while i < to
        invariant
            from <= i <= to,
            to <= s@.len(),
            forall|j: int| from <= j < i ==> !is_mult(s@[j]),
        decreases to - i,
    {
        let c = s.get_char(i);
        if c == 'R' || c == 'K' || c == 'M' {
            return i;
        }
        i = i + 1;
    }
    to
}

/// Reads the resistance code at `s[from..to]`.
fn parse_resistance(s: &str, from: usize, to: usize) -> (r: Option<u64>)
    requires
        from <= to <= s@.len(),
        to <= usize::MAX - 1,
    ensures
        r is Some <==> spec_resistance_milliohms(s@.subrange(from as int, to as int)) is Some,
        r is Some ==> r->0 == spec_resistance_milliohms(
            s@.subrange(from as int, to as int),
        )->0,
{
    let ghost v = s@.subrange(from as int, to as int);
    let p = find_mult(s, from, to);
    proof {
        assert(forall|j: int| 0 <= j < p - from ==> v[j] == s@[from + j]);
        if p < to {
            assert(v[p - from] == s@[p as int]);
        }
        lemma_first_mult_at(v, p - from);
    }
    if p >= to || p - from < 1 || p - from > 4 || to - p - 1 > 3 {
        return Option::None;
    }
    let left = match parse_digits(s, from, p) {
        Option::Some(x) => x,
        Option::None => {
            proof {
                let w = choose|j: int| from <= j < p && !is_digit(s@[j]);
                assert(v[w - from] == s@[w]);
            }
            return Option::None;
        },
    };
    let right = match parse_digits(s, p + 1, to) {
        Option::Some(x) => x,
        Option::None => {
            proof {
                let w = choose|j: int| p + 1 <= j < to && !is_digit(s@[j]);
                assert(v[w - from] == s@[w]);
            }
            return Option::None;
        },
    };
    let mc = s.get_char(p);
    let m: u64 = if mc == 'R' {
        1000
    } else if mc == 'K' {
        1000000
    } else {
        1000000000
    };
    let scale = m / pow10_exec((to - p - 1) as u64);
    proof {
        assert(forall|j: int| 0 <= j < p - from ==> v[j] == s@[from + j]);
        assert(forall|j: int| p - from < j < v.len() ==> v[j] == s@[from + j]);
        assert(v.subrange(0, p - from) =~= s@.subrange(from as int, p as int));
        assert(v.subrange(p - from + 1, v.len() as int) =~= s@.subrange(p + 1, to as int));
        assert(left <= 9999 && m <= 1000000000);
        assert(left * m <= 9999000000000) by (nonlinear_arith)
            requires
                left <= 9999,
                m <= 1000000000,
        ;
        assert(scale <= m);
        assert(right * scale <= 9999000000000) by (nonlinear_arith)
            requires
                right <= 9999,
                scale <= 1000000000,
        ;
    }
    Option::Some(left * m + right * scale)
}

/// The temperature coefficient a precision-series letter names.
pub open spec fn spec_tempco_ppm(c: char) -> Option<int> {
    if c == 'C' {
        Option::Some(15)
    } else if c == 'D' {
        Option::Some(25)
    } else if c == 'E' {
        Option::Some(50)
    } else {
        Option::None
    }
}

fn read_tempco(c: char) -> (r: Option<u64>)
    ensures
        r is Some <==> spec_tempco_ppm(c) is Some,
        r is Some ==> r->0 == spec_tempco_ppm(c)->0,
{
    match c {
        'C' => Option::Some(15),
        'D' => Option::Some(25),
        'E' => Option::Some(50),
        _ => Option::None,
    }
}

/// Decodes one chip resistor of the thick-film or the precision thin-film
/// series: two series letters, the size code, the tolerance letter, for the
/// precision series the temperature-coefficient letter, and the resistance
/// code before the final packaging letter.
pub fn make_yageo_series_resistor(part_number: &str) -> (r: Option<Resistor>)
    ensures
        r is Some ==> ({
            let p = part_number@;
            let res = r->0;
            &&& p.len() >= 13
            &&& Option::Some(res.details.size->0) == spec_size(p.subrange(2, 6))
            &&& res.tolerance_bp == spec_tolerance_bp(p[6])->0
            &&& res.value_milliohms == spec_resistance_milliohms(p.subrange(11, p.len() - 1))->0
            &&& (p.subrange(0, 2) == "AT"@ ==> res.kind == ResistorKind::ThinFilmChip
                && res.tempco_ppm == Option::Some(spec_tempco_ppm(p[8])->0 as u64))
            &&& (p.subrange(0, 2) != "AT"@ ==> res.kind == ResistorKind::ThickFilmChip
                && res.tempco_ppm is None)
        }),
{
    let n = part_number.unicode_len();
    if n < 13 {
        return Option::None;
    }
    let size = match read_size(part_number, 2) {
        Option::Some(sz) => sz,
        Option::None => {
            return Option::None;
        },
    };
    let tolerance_bp = match read_tolerance_bp(part_number.get_char(6)) {
        Option::Some(t) => t,
        Option::None => {
            return Option::None;
        },
    };
    let value_milliohms = match parse_resistance(part_number, 11, n - 1) {
        Option::Some(x) => x,
        Option::None => {
            return Option::None;
        },
    };
    let series = part_number.substring_char(0, 2);
    let precision = str_eq(series, "AT");
    let (kind, tempco_ppm) = if precision {
        let t = match read_tempco(part_number.get_char(8)) {
            Option::Some(t) => t,
            Option::None => {
                return Option::None;
            },
        };
        (ResistorKind::ThinFilmChip, Option::Some(t))
    } else {
        (ResistorKind::ThickFilmChip, Option::None)
    };
    Option::Some(
        Resistor {
            details: PartDetails {
                manufacturer: Manufacturer { name: "Yageo".to_owned() },
                size: Option::Some(size),
                pins: Vec::new(),
            },
            kind,
            value_milliohms,
            tolerance_bp,
            tempco_ppm,
        },
    )
}

/// The rated voltage a ceramic-series letter names, in millivolts.
pub open spec fn spec_kemet_voltage_mv(c: char) -> Option<int> {
    if c == '9' {
        Option::Some(6300)
    } else if c == '8' {
        Option::Some(10000)
    } else if c == '4' {
        Option::Some(16000)
    } else if c == '3' {
        Option::Some(25000)
    } else if c == '5' {
        Option::Some(50000)
    } else if c == '1' {
        Option::Some(100000)
    } else if c == '2' {
        Option::Some(200000)
    } else {
        Option::None
    }
}

fn read_kemet_voltage(c: char) -> (r: Option<u64>)
    ensures
        r is Some <==> spec_kemet_voltage_mv(c) is Some,
        r is Some ==> r->0 == spec_kemet_voltage_mv(c)->0,
{
    match c {
        '9' => Option::Some(6300),
        '8' => Option::Some(10000),
        '4' => Option::Some(16000),
        '3' => Option::Some(25000),
        '5' => Option::Some(50000),
        '1' => Option::Some(100000),
        '2' => Option::Some(200000),
        _ => Option::None,
    }
}

/// Decodes one ceramic chip capacitor: the chip prefix, the size code, the
/// three-digit capacitance code, the tolerance letter, the voltage code and
/// the dielectric letter.
pub fn make_kemet_ceramic_capacitor(part_number: &str) -> (r: Option<Capacitor>)
    ensures
        r is Some ==> ({
            let p = part_number@;
            let cap = r->0;
            &&& p.len() >= 12
            &&& p[0] == 'C' && p[5] == 'C'
            &&& Option::Some(cap.details.size->0) == spec_size(p.subrange(1, 5))
            &&& cap.value_pf == spec_cap_code_pf(p.subrange(6, 9))->0
            &&& Option::Some(cap.tolerance) == spec_cap_tolerance(p[9])
            &&& cap.voltage_mv == spec_kemet_voltage_mv(p[10])->0
            &&& (p[11] == 'R' ==> cap.kind == CapacitorKind::MultiLayerChip(DielectricCode::X7R))
            &&& (p[11] == 'P' ==> cap.kind == CapacitorKind::MultiLayerChip(DielectricCode::X5R))
        }),
{
    let n = part_number.unicode_len();
    if n < 12 {
        return Option::None;
    }
    if part_number.get_char(0) != 'C' || part_number.get_char(5) != 'C' {
        return Option::None;
    }
    let size = match read_size(part_number, 1) {
        Option::Some(sz) => sz,
        Option::None => {
            return Option::None;
        },
    };
    let value_pf = match read_cap_code_pf(part_number, 6) {
        Option::Some(v) => v,
        Option::None => {
            return Option::None;
        },
    };
    let tolerance = match read_cap_tolerance(part_number.get_char(9)) {
        Option::Some(t) => t,
        Option::None => {
            return Option::None;
        },
    };
    let voltage_mv = match read_kemet_voltage(part_number.get_char(10)) {
        Option::Some(v) => v,
        Option::None => {
            return Option::None;
        },
    };
    let dielectric = match part_number.get_char(11) {
        'R' => DielectricCode::X7R,
        'P' => DielectricCode::X5R,
        _ => {
            return Option::None;
        },
    };
    Option::Some(
        Capacitor {
            details: PartDetails {
                manufacturer: Manufacturer { name: "Kemet".to_owned() },
                size: Option::Some(size),
                pins: Vec::new(),
            },
            kind: CapacitorKind::MultiLayerChip(dielectric),
            value_pf,
            voltage_mv,
            tolerance,
        },
    )
}

/// The rated voltage an advanced-ceramic digit names, in millivolts.
pub open spec fn spec_avx_voltage_mv(c: char) -> Option<int> {
    if c == '6' {
        Option::Some(6300)
    } else if c == '5' {
        Option::Some(50000)
    } else if c == '1' {
        Option::Some(100000)
    } else if c == '2' {
        Option::Some(200000)
    } else {
        Option::None
    }
}

/// Decodes one advanced-ceramic chip capacitor: the size code, the voltage
/// digit, the dielectric letter, the three-digit capacitance code and the
/// tolerance letter.
pub fn make_avx_capacitor(part_number: &str) -> (r: Option<Capacitor>)
    ensures
        r is Some ==> ({
            let p = part_number@;
            let cap = r->0;
            &&& p.len() >= 10
            &&& Option::Some(cap.details.size->0) == spec_size(p.subrange(0, 4))
            &&& cap.voltage_mv == spec_avx_voltage_mv(p[4])->0
            &&& cap.value_pf == spec_cap_code_pf(p.subrange(6, 9))->0
            &&& Option::Some(cap.tolerance) == spec_cap_tolerance(p[9])
            &&& (p[5] == 'C' ==> cap.kind == CapacitorKind::MultiLayerChip(DielectricCode::X7R))
            &&& (p[5] == 'D' ==> cap.kind == CapacitorKind::MultiLayerChip(DielectricCode::X5R))
        }),
{
    let n = part_number.unicode_len();
    if n < 10 {
        return Option::None;
    }
    let size = match read_size(part_number, 0) {
        Option::Some(sz) => sz,
        Option::None => {
            return Option::None;
        },
    };
    let voltage_mv = match part_number.get_char(4) {
        '6' => 6300u64,
        '5' => 50000u64,
        '1' => 100000u64,
        '2' => 200000u64,
        _ => {
            return Option::None;
        },
    };
    let dielectric = match part_number.get_char(5) {
        'C' => DielectricCode::X7R,
        'D' => DielectricCode::X5R,
        _ => {
            return Option::None;
        },
    };
    let value_pf = match read_cap_code_pf(part_number, 6) {
        Option::Some(v) => v,
        Option::None => {
            return Option::None;
        },
    };
    let tolerance = match read_cap_tolerance(part_number.get_char(9)) {
        Option::Some(t) => t,
        Option::None => {
            return Option::None;
        },
    };
    Option::Some(
        Capacitor {
            details: PartDetails {
                manufacturer: Manufacturer { name: "AVX".to_owned() },
                size: Option::Some(size),
                pins: Vec::new(),
            },
            kind: CapacitorKind::MultiLayerChip(dielectric),
            value_pf,
            voltage_mv,
            tolerance,
        },
    )
}

/// The forward drop a color letter's diode typically shows, in millivolts.
pub open spec fn spec_led_drop_mv(c: char) -> Option<int> {
    if c == 'G' {
        Option::Some(3200)
    } else if c == 'R' {
        Option::Some(1800)
    } else if c == 'B' {
        Option::Some(2700)
    } else {
        Option::None
    }
}

/// The color name a color letter names.
pub open spec fn spec_led_color(c: char) -> Option<Seq<char>> {
    if c == 'G' {
        Option::Some("Green"@)
    } else if c == 'R' {
        Option::Some("Red"@)
    } else if c == 'B' {
        Option::Some("Blue"@)
    } else {
        Option::None
    }
}

/// Decodes one indicator diode: the series prefix and the color letter, with
/// the color's typical forward drop.
pub fn make_wurth_led(part_number: &str) -> (r: Option<Diode>)
    ensures
        r is Some <==> part_number@.len() >= 7 && part_number@.subrange(0, 6) == "150060"@
            && spec_led_drop_mv(part_number@[6]) is Some,
        r is Some ==> ({
            let p = part_number@;
            let d = r->0;
            &&& d.details.pins@.len() == 2
            &&& d.details.pins@[0].kind == PinKind::Passive(PassiveKind::Negative)
            &&& d.details.pins@[1].kind == PinKind::Passive(PassiveKind::Positive)
            &&& d.forward_drop_mv == spec_led_drop_mv(p[6])->0
            &&& d.kind matches DiodeKind::Led(color) && color@ == spec_led_color(p[6])->0
        }),
{
    proof {
        reveal_strlit("150060");
    }
    let n = part_number.unicode_len();
    if n < 7 {
        return Option::None;
    }
    if !has_prefix(part_number, "150060") {
        return Option::None;
    }
    let (color, forward_drop_mv) = match part_number.get_char(6) {
        'G' => ("Green", 3200u64),
        'R' => ("Red", 1800u64),
        'B' => ("Blue", 2700u64),
        _ => {
            return Option::None;
        },
    };
    let mut pins: Vec<EPin> = Vec::new();
    pins.push(pin("K", PinKind::Passive(PassiveKind::Negative)));
    pins.push(pin("A", PinKind::Passive(PassiveKind::Positive)));
    Option::Some(
        Diode {
            details: PartDetails {
                manufacturer: Manufacturer { name: "Wurth".to_owned() },
                size: Option::None,
                pins,
            },
            kind: DiodeKind::Led(color.to_owned()),
            forward_drop_mv,
        },
    )
}

/// Reads a two-digit output-voltage code at `s[at..at+2]`, in units of a
/// tenth of a volt: `50` names five volts, `33` three volts and three tenths.
fn read_voltage_code(s: &str, at: usize) -> (r: Option<u64>)
    requires
        at + 2 <= s@.len(),
        at + 2 <= usize::MAX,
    ensures
        r is Some <==> is_digit(s@[at as int]) && is_digit(s@[at + 1]),
        r is Some ==> r->0 == 1000 * digit(s@[at as int]) + 100 * digit(s@[at + 1]),
{
    let hi = match char_digit(s.get_char(at)) {
        Option::Some(d) => d,
        Option::None => {
            return Option::None;
        },
    };
    let lo = match char_digit(s.get_char(at + 1)) {
        Option::Some(d) => d,
        Option::None => {
            return Option::None;
        },
    };
    Option::Some(1000 * hi + 100 * lo)
}

/// Decodes one fixed low-dropout regulator of the 1117 family: the series
/// prefix and the two-digit output-voltage code.
pub fn make_zldo1117g_regulator(part_number: &str) -> (r: Option<Regulator>)
    ensures
        r is Some <==> part_number@.len() >= 11 && part_number@.subrange(0, 9) == "ZLDO1117G"@
            && is_digit(part_number@[9]) && is_digit(part_number@[10]),
        r is Some ==> ({
            let p = part_number@;
            let v = r->0;
            &&& v.input_max_voltage_mv == 18000
            &&& v.output_nominal_voltage_mv == 1000 * digit(p[9]) + 100 * digit(p[10])
            &&& v.output_max_current_ma == 1000
            &&& v.details.pins@.len() == 4
            &&& v.details.pins@[0].kind == PinKind::PowerReturn
            &&& v.details.pins@[1].kind == PinKind::PowerSource
            &&& v.details.pins@[2].kind == PinKind::PowerSink
            &&& v.details.pins@[3].kind == PinKind::PowerSource
        }),
{
    proof {
        reveal_strlit("ZLDO1117G");
    }
    if part_number.unicode_len() < 11 {
        return Option::None;
    }
    if !has_prefix(part_number, "ZLDO1117G") {
        return Option::None;
    }
    let output_nominal_voltage_mv = match read_voltage_code(part_number, 9) {
        Option::Some(v) => v,
        Option::None => {
            return Option::None;
        },
    };
    let mut pins: Vec<EPin> = Vec::new();
    pins.push(pin("GND", PinKind::PowerReturn));
    pins.push(pin("VOUT", PinKind::PowerSource));
    pins.push(pin("VIN", PinKind::PowerSink));
    pins.push(pin("VOUT_TAB", PinKind::PowerSource));
    Option::Some(
        Regulator {
            details: PartDetails {
                manufacturer: Manufacturer { name: "Diodes Incorporated".to_owned() },
                size: Option::None,
                pins,
            },
            input_max_voltage_mv: 18000,
            output_nominal_voltage_mv,
            output_max_current_ma: 1000,
        },
    )
}

/// Decodes one fixed automotive low-dropout regulator: the series prefix and
/// the two-digit output-voltage code.
pub fn make_ti_tps_7b84_regulator(part_number: &str) -> (r: Option<Regulator>)
    ensures
        r is Some <==> part_number@.len() >= 9 && part_number@.subrange(0, 7) == "TPS7B84"@
            && is_digit(part_number@[7]) && is_digit(part_number@[8]),
        r is Some ==> ({
            let p = part_number@;
            let v = r->0;
            &&& v.input_max_voltage_mv == 42000
            &&& v.output_nominal_voltage_mv == 1000 * digit(p[7]) + 100 * digit(p[8])
            &&& v.output_max_current_ma == 150
            &&& v.details.pins@.len() == 4
            &&& v.details.pins@[0].kind == PinKind::PowerSink
            &&& v.details.pins@[0].name@ == "IN"@
            &&& v.details.pins@[1].kind == PinKind::Input(SignalKind::Any)
            &&& v.details.pins@[1].name@ == "EN"@
            &&& v.details.pins@[2].kind == PinKind::PowerSource
            &&& v.details.pins@[2].name@ == "OUT"@
            &&& v.details.pins@[3].kind == PinKind::PowerReturn
            &&& v.details.pins@[3].name@ == "GND"@
        }),
{
    proof {
        reveal_strlit("TPS7B84");
    }
    if part_number.unicode_len() < 9 {
        return Option::None;
    }
    if !has_prefix(part_number, "TPS7B84") {
        return Option::None;
    }
    let output_nominal_voltage_mv = match read_voltage_code(part_number, 7) {
        Option::Some(v) => v,
        Option::None => {
            return Option::None;
        },
    };
    let mut pins: Vec<EPin> = Vec::new();
    pins.push(pin("IN", PinKind::PowerSink));
    pins.push(pin("EN", PinKind::Input(SignalKind::Any)));
    pins.push(pin("OUT", PinKind::PowerSource));
    pins.push(pin("GND", PinKind::PowerReturn));
    Option::Some(
        Regulator {
            details: PartDetails {
                manufacturer: Manufacturer { name: "Texas Instruments".to_owned() },
                size: Option::None,
                pins,
            },
            input_max_voltage_mv: 42000,
            output_nominal_voltage_mv,
            output_max_current_ma: 150,
        },
    )
}

/// Decodes one fixed low-dropout regulator of the 33375 family: the series
/// prefix and the output voltage written as a digit, a point and a digit.
pub fn make_on_semi_ncv33375_regulator(part_number: &str) -> (r: Option<Regulator>)
    ensures
        r is Some <==> part_number@.len() >= 13 && part_number@.subrange(0, 10) == "NCV33375ST"@
            && is_digit(part_number@[10]) && part_number@[11] == '.' && is_digit(
            part_number@[12],
        ),
        r is Some ==> ({
            let p = part_number@;
            let v = r->0;
            &&& v.input_max_voltage_mv == 13000
            &&& v.output_nominal_voltage_mv == 1000 * digit(p[10]) + 100 * digit(p[12])
            &&& v.output_max_current_ma == 300
            &&& v.details.pins@.len() == 4
            &&& v.details.pins@[0].kind == PinKind::PowerSink
            &&& v.details.pins@[0].name@ == "VIN"@
            &&& v.details.pins@[1].kind == PinKind::Input(SignalKind::Any)
            &&& v.details.pins@[1].name@ == "ON/OFF"@
            &&& v.details.pins@[2].kind == PinKind::PowerSource
            &&& v.details.pins@[2].name@ == "VOUT"@
            &&& v.details.pins@[3].kind == PinKind::PowerReturn
            &&& v.details.pins@[3].name@ == "GND"@
        }),
{
    proof {
        reveal_strlit("NCV33375ST");
    }
    if part_number.unicode_len() < 13 {
        return Option::None;
    }
    if !has_prefix(part_number, "NCV33375ST") {
        return Option::None;
    }
    let hi = match char_digit(part_number.get_char(10)) {
        Option::Some(d) => d,
        Option::None => {
            return Option::None;
        },
    };
    if part_number.get_char(11) != '.' {
        return Option::None;
    }
    let lo = match char_digit(part_number.get_char(12)) {
        Option::Some(d) => d,
        Option::None => {
            return Option::None;
        },
    };
    let mut pins: Vec<EPin> = Vec::new();
    pins.push(pin("VIN", PinKind::PowerSink));
    pins.push(pin("ON/OFF", PinKind::Input(SignalKind::Any)));
    pins.push(pin("VOUT", PinKind::PowerSource));
    pins.push(pin("GND", PinKind::PowerReturn));
    Option::Some(
        Regulator {
            details: PartDetails {
                manufacturer: Manufacturer { name: "ON Semiconductor".to_owned() },
                size: Option::None,
                pins,
            },
            input_max_voltage_mv: 13000,
            output_nominal_voltage_mv: 1000 * hi + 100 * lo,
            output_max_current_ma: 300,
        },
    )
}

/// Decodes one fixed micropower regulator of the 1799 family: the series
/// prefix and the two-digit output-voltage code.
pub fn make_mcp_1799_regulator(part_number: &str) -> (r: Option<Regulator>)
    ensures
        r is Some <==> part_number@.len() >= 11 && part_number@.subrange(0, 9) == "MCP1799T-"@
            && is_digit(part_number@[9]) && is_digit(part_number@[10]),
        r is Some ==> ({
            let p = part_number@;
            let v = r->0;
            &&& v.input_max_voltage_mv == 45000
            &&& v.output_nominal_voltage_mv == 1000 * digit(p[9]) + 100 * digit(p[10])
            &&& v.output_max_current_ma == 80
            &&& v.details.pins@.len() == 4
            &&& v.details.pins@[0].kind == PinKind::PowerSink
            &&& v.details.pins@[0].name@ == "VIN"@
            &&& v.details.pins@[1].kind == PinKind::PowerReturn
            &&& v.details.pins@[1].name@ == "GND_1"@
            &&& v.details.pins@[2].kind == PinKind::PowerSource
            &&& v.details.pins@[2].name@ == "VOUT"@
            &&& v.details.pins@[3].kind == PinKind::PowerReturn
            &&& v.details.pins@[3].name@ == "GND_2"@
        }),
{
    proof {
        reveal_strlit("MCP1799T-");
    }
    if part_number.unicode_len() < 11 {
        return Option::None;
    }
    if !has_prefix(part_number, "MCP1799T-") {
        return Option::None;
    }
    let output_nominal_voltage_mv = match read_voltage_code(part_number, 9) {
        Option::Some(v) => v,
        Option::None => {
            return Option::None;
        },
    };
    let mut pins: Vec<EPin> = Vec::new();
    pins.push(pin("VIN", PinKind::PowerSink));
    pins.push(pin("GND_1", PinKind::PowerReturn));
    pins.push(pin("VOUT", PinKind::PowerSource));
    pins.push(pin("GND_2", PinKind::PowerReturn));
    Option::Some(
        Regulator {
            details: PartDetails {
                manufacturer: Manufacturer { name: "Microchip".to_owned() },
                size: Option::None,
                pins,
            },
            input_max_voltage_mv: 45000,
            output_nominal_voltage_mv,
            output_max_current_ma: 80,
        },
    )
}

/// Builds the pin map of the two-terminal programmable current source: the
/// set input, the sense output pair and the supply input.
pub fn make_lt3092_current_source(part_number: &str) -> (r: Option<PartDetails>)
    ensures
        r is Some <==> part_number@.len() >= 6 && part_number@.subrange(0, 6) == "LT3092"@,
        r is Some ==> ({
            let u = r->0;
            &&& u.pins@.len() == 4
            &&& u.pins@[0].kind == PinKind::Input(SignalKind::Any)
            &&& u.pins@[0].name@ == "SET"@
            &&& u.pins@[1].kind == PinKind::PowerSource
            &&& u.pins@[1].name@ == "OUT_1"@
            &&& u.pins@[2].kind == PinKind::PowerSink
            &&& u.pins@[2].name@ == "IN"@
            &&& u.pins@[3].kind == PinKind::PowerSource
            &&& u.pins@[3].name@ == "OUT_2"@
        }),
{
    proof {
        reveal_strlit("LT3092");
    }
    if !has_prefix(part_number, "LT3092") {
        return Option::None;
    }
    let mut pins: Vec<EPin> = Vec::new();
    pins.push(pin("SET", PinKind::Input(SignalKind::Any)));
    pins.push(pin("OUT_1", PinKind::PowerSource));
    pins.push(pin("IN", PinKind::PowerSink));
    pins.push(pin("OUT_2", PinKind::PowerSource));
    Option::Some(
        PartDetails {
            manufacturer: Manufacturer { name: "Analog Devices".to_owned() },
            size: Option::None,
            pins,
        },
    )
}

/// The rated voltage a two-character chip-capacitor code names, in
/// millivolts.
pub open spec fn spec_eia_voltage_mv(a: char, b: char) -> Option<int> {
    if a == '0' && b == 'J' {
        Option::Some(6300)
    } else if a == '1' && b == 'A' {
        Option::Some(10000)
    } else if a == '1' && b == 'C' {
        Option::Some(16000)
    } else if a == '1' && b == 'E' {
        Option::Some(25000)
    } else if a == '1' && b == 'V' {
        Option::Some(35000)
    } else if a == '1' && b == 'H' {
        Option::Some(50000)
    } else if a == '2' && b == 'A' {
        Option::Some(100000)
    } else if a == '2' && b == 'E' {
        Option::Some(250000)
    } else {
        Option::None
    }
}

fn read_eia_voltage(s: &str, at: usize) -> (r: Option<u64>)
    requires
        at + 2 <= s@.len(),
        at + 2 <= usize::MAX,
    ensures
        r is Some <==> spec_eia_voltage_mv(s@[at as int], s@[at + 1]) is Some,
        r is Some ==> r->0 == spec_eia_voltage_mv(s@[at as int], s@[at + 1])->0,
{
    let a = s.get_char(at);
    let b = s.get_char(at + 1);
    if a == '0' && b == 'J' {
        Option::Some(6300)
    } else if a == '1' && b == 'A' {
        Option::Some(10000)
    } else if a == '1' && b == 'C' {
        Option::Some(16000)
    } else if a == '1' && b == 'E' {
        Option::Some(25000)
    } else if a == '1' && b == 'V' {
        Option::Some(35000)
    } else if a == '1' && b == 'H' {
        Option::Some(50000)
    } else if a == '2' && b == 'A' {
        Option::Some(100000)
    } else if a == '2' && b == 'E' {
        Option::Some(250000)
    } else {
        Option::None
    }
}

/// The dielectric a three-character code names.
pub open spec fn spec_dielectric_code(c: Seq<char>) -> Option<DielectricCode> {
    if c == "X5R"@ {
        Option::Some(DielectricCode::X5R)
    } else if c == "X7R"@ {
        Option::Some(DielectricCode::X7R)
    } else {
        Option::None
    }
}

fn read_dielectric(s: &str, at: usize) -> (r: Option<DielectricCode>)
    requires
        at + 3 <= s@.len(),
        at + 3 <= usize::MAX,
    ensures
        r == spec_dielectric_code(s@.subrange(at as int, at + 3)),
{
    let sub = s.substring_char(at, at + 3);
    if str_eq(sub, "X5R") {
        Option::Some(DielectricCode::X5R)
    } else if str_eq(sub, "X7R") {
        Option::Some(DielectricCode::X7R)
    } else {
        Option::None
    }
}

/// The chip size an automotive-ceramic case digit names.
pub open spec fn spec_cga_size(c: char) -> Option<SizeCode> {
    if c == '2' {
        Option::Some(SizeCode::I0402)
    } else if c == '3' {
        Option::Some(SizeCode::I0603)
    } else if c == '4' {
        Option::Some(SizeCode::I0805)
    } else if c == '5' {
        Option::Some(SizeCode::I1206)
    } else if c == '6' {
        Option::Some(SizeCode::I1210)
    } else {
        Option::None
    }
}

/// Decodes one automotive-grade ceramic chip capacitor: the series prefix,
/// the case digit, the dielectric code, the voltage code, the three-digit
/// capacitance code and the tolerance letter.
pub fn make_tdk_cga_capacitor(part_number: &str) -> (r: Option<Capacitor>)
    ensures
        r is Some ==> ({
            let p = part_number@;
            let cap = r->0;
            &&& p.len() >= 15
            &&& p.subrange(0, 3) == "CGA"@
            &&& cap.details.manufacturer.name@ == "TDK"@
            &&& Option::Some(cap.details.size->0) == spec_cga_size(p[3])
            &&& Option::Some(cap.kind->MultiLayerChip_0) == spec_dielectric_code(
                p.subrange(6, 9),
            )
            &&& cap.voltage_mv == spec_eia_voltage_mv(p[9], p[10])->0
            &&& cap.value_pf == spec_cap_code_pf(p.subrange(11, 14))->0
            &&& Option::Some(cap.tolerance) == spec_cap_tolerance(p[14])
        }),
{
    proof {
        reveal_strlit("CGA");
    }
    if part_number.unicode_len() < 15 {
        return Option::None;
    }
    if !has_prefix(part_number, "CGA") {
        return Option::None;
    }
    let size = match part_number.get_char(3) {
        '2' => SizeCode::I0402,
        '3' => SizeCode::I0603,
        '4' => SizeCode::I0805,
        '5' => SizeCode::I1206,
        '6' => SizeCode::I1210,
        _ => {
            return Option::None;
        },
    };
    let dielectric = match read_dielectric(part_number, 6) {
        Option::Some(d) => d,
        Option::None => {
            return Option::None;
        },
    };
    let voltage_mv = match read_eia_voltage(part_number, 9) {
        Option::Some(v) => v,
        Option::None => {
            return Option::None;
        },
    };
    let value_pf = match read_cap_code_pf(part_number, 11) {
        Option::Some(v) => v,
        Option::None => {
            return Option::None;
        },
    };
    let tolerance = match read_cap_tolerance(part_number.get_char(14)) {
        Option::Some(t) => t,
        Option::None => {
            return Option::None;
        },
    };
    Option::Some(
        Capacitor {
            details: PartDetails {
                manufacturer: Manufacturer { name: "TDK".to_owned() },
                size: Option::Some(size),
                pins: Vec::new(),
            },
            kind: CapacitorKind::MultiLayerChip(dielectric),
            value_pf,
            voltage_mv,
            tolerance,
        },
    )
}

/// The chip size a four-character metric code names.
pub open spec fn spec_metric_size(c: Seq<char>) -> Option<SizeCode> {
    if c == "0603"@ {
        Option::Some(SizeCode::I0201)
    } else if c == "1005"@ {
        Option::Some(SizeCode::I0402)
    } else if c == "1608"@ {
        Option::Some(SizeCode::I0603)
    } else if c == "2012"@ {
        Option::Some(SizeCode::I0805)
    } else if c == "3216"@ {
        Option::Some(SizeCode::I1206)
    } else if c == "3225"@ {
        Option::Some(SizeCode::I1210)
    } else {
        Option::None
    }
}

/// Decodes one general-purpose ceramic chip capacitor named by its metric
/// size: the chip prefix, the metric size code, the dielectric code, the
/// voltage code, the three-digit capacitance code and the tolerance letter.
pub fn make_tdk_c_series_capacitor(part_number: &str) -> (r: Option<Capacitor>)
    ensures
        r is Some ==> ({
            let p = part_number@;
            let cap = r->0;
            &&& p.len() >= 14
            &&& p[0] == 'C'
            &&& cap.details.manufacturer.name@ == "TDK"@
            &&& Option::Some(cap.details.size->0) == spec_metric_size(p.subrange(1, 5))
            &&& Option::Some(cap.kind->MultiLayerChip_0) == spec_dielectric_code(
                p.subrange(5, 8),
            )
            &&& cap.voltage_mv == spec_eia_voltage_mv(p[8], p[9])->0
            &&& cap.value_pf == spec_cap_code_pf(p.subrange(10, 13))->0
            &&& Option::Some(cap.tolerance) == spec_cap_tolerance(p[13])
        }),
{
    if part_number.unicode_len() < 14 {
        return Option::None;
    }
    if part_number.get_char(0) != 'C' {
        return Option::None;
    }
    let sub = part_number.substring_char(1, 5);
    let size = if str_eq(sub, "0603") {
        SizeCode::I0201
    } else if str_eq(sub, "1005") {
        SizeCode::I0402
    } else if str_eq(sub, "1608") {
        SizeCode::I0603
    } else if str_eq(sub, "2012") {
        SizeCode::I0805
    } else if str_eq(sub, "3216") {
        SizeCode::I1206
    } else if str_eq(sub, "3225") {
        SizeCode::I1210
    } else {
        return Option::None;
    };
    let dielectric = match read_dielectric(part_number, 5) {
        Option::Some(d) => d,
        Option::None => {
            return Option::None;
        },
    };
    let voltage_mv = match read_eia_voltage(part_number, 8) {
        Option::Some(v) => v,
        Option::None => {
            return Option::None;
        },
    };
    let value_pf = match read_cap_code_pf(part_number, 10) {
        Option::Some(v) => v,
        Option::None => {
            return Option::None;
        },
    };
    let tolerance = match read_cap_tolerance(part_number.get_char(13)) {
        Option::Some(t) => t,
        Option::None => {
            return Option::None;
        },
    };
    Option::Some(
        Capacitor {
            details: PartDetails {
                manufacturer: Manufacturer { name: "TDK".to_owned() },
                size: Option::Some(size),
                pins: Vec::new(),
            },
            kind: CapacitorKind::MultiLayerChip(dielectric),
            value_pf,
            voltage_mv,
            tolerance,
        },
    )
}

/// The chip size a two-digit series code names.
pub open spec fn spec_murata_size(c: Seq<char>) -> Option<SizeCode> {
    if c == "15"@ {
        Option::Some(SizeCode::I0402)
    } else if c == "18"@ {
        Option::Some(SizeCode::I0603)
    } else if c == "21"@ {
        Option::Some(SizeCode::I0805)
    } else if c == "31"@ {
        Option::Some(SizeCode::I1206)
    } else {
        Option::None
    }
}

/// The dielectric a two-character series code names.
pub open spec fn spec_murata_dielectric(c: Seq<char>) -> Option<DielectricCode> {
    if c == "R6"@ {
        Option::Some(DielectricCode::X5R)
    } else if c == "R7"@ {
        Option::Some(DielectricCode::X7R)
    } else {
        Option::None
    }
}

/// Decodes one monolithic ceramic chip capacitor: the series prefix, the
/// two-digit size code, the dielectric code, the voltage code, the
/// three-digit capacitance code and the tolerance letter.
pub fn make_murata_capacitor(part_number: &str) -> (r: Option<Capacitor>)
    ensures
        r is Some ==> ({
            let p = part_number@;
            let cap = r->0;
            &&& p.len() >= 14
            &&& (p.subrange(0, 3) == "GRT"@ || p.subrange(0, 3) == "GRM"@)
            &&& cap.details.manufacturer.name@ == "Murata"@
            &&& Option::Some(cap.details.size->0) == spec_murata_size(p.subrange(3, 5))
            &&& Option::Some(cap.kind->MultiLayerChip_0) == spec_murata_dielectric(
                p.subrange(6, 8),
            )
            &&& cap.voltage_mv == spec_eia_voltage_mv(p[8], p[9])->0
            &&& cap.value_pf == spec_cap_code_pf(p.subrange(10, 13))->0
            &&& Option::Some(cap.tolerance) == spec_cap_tolerance(p[13])
        }),
{
    proof {
        reveal_strlit("GRT");
        reveal_strlit("GRM");
    }
    if part_number.unicode_len() < 14 {
        return Option::None;
    }
    if !has_prefix(part_number, "GRT") && !has_prefix(part_number, "GRM") {
        return Option::None;
    }
    let sub = part_number.substring_char(3, 5);
    let size = if str_eq(sub, "15") {
        SizeCode::I0402
    } else if str_eq(sub, "18") {
        SizeCode::I0603
    } else if str_eq(sub, "21") {
        SizeCode::I0805
    } else if str_eq(sub, "31") {
        SizeCode::I1206
    } else {
        return Option::None;
    };
    let dsub = part_number.substring_char(6, 8);
    let dielectric = if str_eq(dsub, "R6") {
        DielectricCode::X5R
    } else if str_eq(dsub, "R7") {
        DielectricCode::X7R
    } else {
        return Option::None;
    };
    let voltage_mv = match read_eia_voltage(part_number, 8) {
        Option::Some(v) => v,
        Option::None => {
            return Option::None;
        },
    };
    let value_pf = match read_cap_code_pf(part_number, 10) {
        Option::Some(v) => v,
        Option::None => {
            return Option::None;
        },
    };
    let tolerance = match read_cap_tolerance(part_number.get_char(13)) {
        Option::Some(t) => t,
        Option::None => {
            return Option::None;
        },
    };
    Option::Some(
        Capacitor {
            details: PartDetails {
                manufacturer: Manufacturer { name: "Murata".to_owned() },
                size: Option::Some(size),
                pins: Vec::new(),
            },
            kind: CapacitorKind::MultiLayerChip(dielectric),
            value_pf,
            voltage_mv,
            tolerance,
        },
    )
}

/// The chip size a molded tantalum case letter names.
pub open spec fn spec_tantalum_size(c: char) -> Option<SizeCode> {
    if c == 'A' {
        Option::Some(SizeCode::I1206)
    } else if c == 'B' {
        Option::Some(SizeCode::I1210)
    } else if c == 'C' {
        Option::Some(SizeCode::I1812)
    } else {
        Option::None
    }
}

/// Decodes one molded tantalum chip capacitor: the series prefix, the case
/// letter, the three-digit capacitance code, the tolerance letter and the
/// three-digit voltage in whole volts.
pub fn make_kemet_t491_capacitor(part_number: &str) -> (r: Option<Capacitor>)
    ensures
        r is Some ==> ({
            let p = part_number@;
            let cap = r->0;
            &&& p.len() >= 12
            &&& p.subrange(0, 4) == "T491"@
            &&& cap.details.manufacturer.name@ == "Kemet"@
            &&& cap.kind == CapacitorKind::Tantalum
            &&& Option::Some(cap.details.size->0) == spec_tantalum_size(p[4])
            &&& cap.value_pf == spec_cap_code_pf(p.subrange(5, 8))->0
            &&& Option::Some(cap.tolerance) == spec_cap_tolerance(p[8])
            &&& cap.voltage_mv == 1000 * digits_val(p.subrange(9, 12))
        }),
{
    proof {
        reveal_strlit("T491");
    }
    if part_number.unicode_len() < 12 {
        return Option::None;
    }
    if !has_prefix(part_number, "T491") {
        return Option::None;
    }
    let size = match part_number.get_char(4) {
        'A' => SizeCode::I1206,
        'B' => SizeCode::I1210,
        'C' => SizeCode::I1812,
        _ => {
            return Option::None;
        },
    };
    let value_pf = match read_cap_code_pf(part_number, 5) {
        Option::Some(v) => v,
        Option::None => {
            return Option::None;
        },
    };
    let tolerance = match read_cap_tolerance(part_number.get_char(8)) {
        Option::Some(t) => t,
        Option::None => {
            return Option::None;
        },
    };
    let volts = match parse_digits(part_number, 9, 12) {
        Option::Some(v) => v,
        Option::None => {
            return Option::None;
        },
    };
    Option::Some(
        Capacitor {
            details: PartDetails {
                manufacturer: Manufacturer { name: "Kemet".to_owned() },
                size: Option::Some(size),
                pins: Vec::new(),
            },
            kind: CapacitorKind::Tantalum,
            value_pf,
            voltage_mv: 1000 * volts,
            tolerance,
        },
    )
}


} // verus!
