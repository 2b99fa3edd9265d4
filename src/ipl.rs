//! The placement parser: turns the instance section of a placement list into
//! placement records, converting positions and scales from the source's
//! right-handed Z-up space into a left-handed Y-up one.
//!
//! Numbers are kept exactly as written, as a sign and an unsigned decimal
//! numeral: the conversion only permutes components and flips signs, so it
//! is exact, and a host turns each numeral into whatever number type it
//! renders with.
use vstd::prelude::*;
use crate::error::AssetError;
use crate::sections::{categorise_lines, categorise_spec, find_section, index_of_tag};
use crate::text::{
    digits_value, is_integer_numeral, is_integer_numeral_exec, is_u32_numeral,
    is_unsigned_numeral, is_unsigned_numeral_from, parse_u32, split, split_chars, string_of, trim,
    trim_chars,
};

verus! {

/// A signed decimal number as written: its sign and the unsigned numeral.
#[derive(Debug, PartialEq, Eq)]
pub struct Decimal {
    pub negative: bool,
    pub magnitude: String,
}

impl View for Decimal {
    type V = (bool, Seq<char>);

    open spec fn view(&self) -> (bool, Seq<char>) {
        (self.negative, self.magnitude@)
    }
}

/// Three components, in target space once decoded.
#[derive(Debug, PartialEq, Eq)]
pub struct Vector3 {
    pub x: Decimal,
    pub y: Decimal,
    pub z: Decimal,
}

impl View for Vector3 {
    type V = Seq<(bool, Seq<char>)>;

    open spec fn view(&self) -> Seq<(bool, Seq<char>)> {
        seq![self.x@, self.y@, self.z@]
    }
}

/// A rotation as the four components `(x, y, z, w)` read from the file; it is
/// not normalised.
#[derive(Debug, PartialEq, Eq)]
pub struct Quaternion {
    pub x: Decimal,
    pub y: Decimal,
    pub z: Decimal,
    pub w: Decimal,
}

impl View for Quaternion {
    type V = Seq<(bool, Seq<char>)>;

    open spec fn view(&self) -> Seq<(bool, Seq<char>)> {
        seq![self.x@, self.y@, self.z@, self.w@]
    }
}

/// One instanced model.
#[derive(Debug, PartialEq, Eq)]
pub struct Instance {
    pub model_name: String,
    pub interior: u32,
    pub position: Vector3,
    pub scale: Vector3,
    pub rotation: Quaternion,
}

/// What an instance holds, over mathematical values.
pub struct InstanceView {
    pub model_name: Seq<char>,
    pub interior: u32,
    pub position: Seq<(bool, Seq<char>)>,
    pub scale: Seq<(bool, Seq<char>)>,
    pub rotation: Seq<(bool, Seq<char>)>,
}

impl View for Instance {
    type V = InstanceView;

    open spec fn view(&self) -> InstanceView {
        InstanceView {
            model_name: self.model_name@,
            interior: self.interior,
            position: self.position@,
            scale: self.scale@,
            rotation: self.rotation@,
        }
    }
}

/// The placement records of one placement list, in line order.
#[derive(Debug, PartialEq, Eq)]
pub struct Ipl {
    pub instances: Vec<Instance>,
}

impl View for Ipl {
    type V = Seq<InstanceView>;

    open spec fn view(&self) -> Seq<InstanceView> {
        self.instances@.map_values(|i: Instance| i@)
    }
}

/// The tag of the instance section.
pub open spec fn inst_tag() -> Seq<char> {
    seq!['i', 'n', 's', 't']
}

/// The number written in `s`: an optional sign, then an unsigned numeral.
pub open spec fn decimal_of(s: Seq<char>) -> Option<(bool, Seq<char>)> {
    if s.len() > 0 && (s[0] == '-' || s[0] == '+') {
        if is_unsigned_numeral(s.drop_first()) {
            Some((s[0] == '-', s.drop_first()))
        } else {
            None
        }
    } else if is_unsigned_numeral(s) {
        Some((false, s))
    } else {
        None
    }
}

pub open spec fn negate(d: (bool, Seq<char>)) -> (bool, Seq<char>) {
    (!d.0, d.1)
}

/// Position conversion of a raw triple `(a, b, c)`: `(a, c, -b)`.
pub open spec fn to_target_position(raw: Seq<(bool, Seq<char>)>) -> Seq<(bool, Seq<char>)> {
    seq![raw[0], raw[2], negate(raw[1])]
}

/// Scale conversion of a raw triple `(a, b, c)`: `(a, c, b)`.
pub open spec fn to_target_scale(raw: Seq<(bool, Seq<char>)>) -> Seq<(bool, Seq<char>)> {
    seq![raw[0], raw[2], raw[1]]
}

/// The comma-separated fields of a line, each trimmed.
pub open spec fn fields_of(line: Seq<char>) -> Seq<Seq<char>> {
    split(line, ',').map_values(|p: Seq<char>| trim(p))
}

pub open spec fn decimals_ok(f: Seq<Seq<char>>, a: int, b: int) -> bool {
    forall|k: int| a <= k < b ==> (#[trigger] decimal_of(f[k])) is Some
}

/// The numbers in fields `a..b`.
pub open spec fn decimals(f: Seq<Seq<char>>, a: int, b: int) -> Seq<(bool, Seq<char>)> {
    Seq::new((b - a) as nat, |k: int| decimal_of(f[a + k])->0)
}

/// The record a line's fields stand for: an integer id (not kept), the model
/// name, the interior id, then thirteen numbers in all: position, scale and
/// rotation. Further fields are ignored.
pub open spec fn decode_fields(f: Seq<Seq<char>>) -> Option<InstanceView> {
    if f.len() >= 13 && is_integer_numeral(f[0]) && is_u32_numeral(f[2]) && decimals_ok(f, 3, 13) {
        Some(
            InstanceView {
                model_name: f[1],
                interior: digits_value(f[2]) as u32,
                position: to_target_position(decimals(f, 3, 6)),
                scale: to_target_scale(decimals(f, 6, 9)),
                rotation: decimals(f, 9, 13),
            },
        )
    } else {
        None
    }
}

/// The records of the first `n` lines, or the position of the first line
/// that does not decode.
pub open spec fn decode_lines(lines: Seq<Seq<char>>, n: nat) -> Result<Seq<InstanceView>, nat>
    decreases n,
{
    if n == 0 {
        Ok(seq![])
    } else {
        match decode_lines(lines, (n - 1) as nat) {
            Err(k) => Err(k),
            Ok(v) => match decode_fields(fields_of(lines[n - 1])) {
                None => Err((n - 1) as nat),
                Some(i) => Ok(v.push(i)),
            },
        }
    }
}

/// The data lines of the instance section, when the text classifies.
pub open spec fn instance_lines(text: Seq<char>) -> Option<Seq<Seq<char>>> {
    match categorise_spec(text) {
        Ok(secs) => {
            let j = index_of_tag(secs, inst_tag());
            if j >= 0 {
                Some(secs[j].1)
            } else {
                None
            }
        },
        Err(_) => None,
    }
}

/// What a placement list decodes to.
pub open spec fn parse_spec(text: Seq<char>) -> Result<Seq<InstanceView>, AssetError> {
    match categorise_spec(text) {
        Err(e) => Err(e),
        Ok(secs) => {
            let j = index_of_tag(secs, inst_tag());
            if j < 0 {
                Err(AssetError::MissingRequiredSection)
            } else {
                match decode_lines(secs[j].1, secs[j].1.len()) {
                    Err(k) => Err(AssetError::MalformedLine(k as usize)),
                    Ok(v) => Ok(v),
                }
            }
        },
    }
}

/// Splits one data line into its comma-separated, trimmed fields.
pub fn split_line(line: &Vec<char>) -> (r: Vec<Vec<char>>)
    ensures
        r@.map_values(|p: Vec<char>| p@) == fields_of(line@),
{
    let pieces = split_chars(line.as_slice(), ',');
    let mut out: Vec<Vec<char>> = Vec::new();
    let mut i: usize = 0;
    while i < pieces.len()
        invariant
            i <= pieces@.len(),
            out@.map_values(|p: Vec<char>| p@) == split(line@, ',').take(i as int).map_values(
                |p: Seq<char>| trim(p),
            ),
            pieces@.map_values(|p: Vec<char>| p@) == split(line@, ','),
        decreases pieces@.len() - i,
    {
        let f = trim_chars(pieces[i].as_slice());
        let ghost sp = split(line@, ',');
        let ghost prev = out@;
        assert(pieces@.map_values(|p: Vec<char>| p@)[i as int] == pieces@[i as int]@);
        out.push(f);
        assert(out@.map_values(|p: Vec<char>| p@) =~= prev.map_values(|p: Vec<char>| p@).push(f@));
        assert(sp.take(i + 1).map_values(|p: Seq<char>| trim(p)) =~= sp.take(i as int).map_values(
            |p: Seq<char>| trim(p),
        ).push(trim(sp[i as int])));
        i = i + 1;
    }
    assert(split(line@, ',').take(i as int) =~= split(line@, ','));
    out
}

/// Reads a signed decimal number.
pub fn parse_decimal(s: &Vec<char>) -> (r: Option<Decimal>)
    ensures
        match r {
            Some(d) => decimal_of(s@) == Some(d@),
            None => decimal_of(s@) is None,
        },
{
    if s.len() > 0 && (s[0] == '-' || s[0] == '+') {
        assert(s@.subrange(1, s@.len() as int) =~= s@.drop_first());
        if is_unsigned_numeral_from(s.as_slice(), 1) {
            let m = string_of(crate::text::copy_range(s.as_slice(), 1, s.len()).as_slice());
            Some(Decimal { negative: s[0] == '-', magnitude: m })
        } else {
            None
        }
    } else {
        assert(s@.subrange(0, s@.len() as int) =~= s@);
        if is_unsigned_numeral_from(s.as_slice(), 0) {
            Some(Decimal { negative: false, magnitude: string_of(s.as_slice()) })
        } else {
            None
        }
    }
}

impl Decimal {
    /// The same numeral with the opposite sign.
    pub fn negated(&self) -> (r: Decimal)
        ensures
            r@ == negate(self@),
    {
        Decimal { negative: !self.negative, magnitude: self.magnitude.clone() }
    }
}

/// Converts a raw position triple `(a, b, c)` into target space: `(a, c, -b)`.
pub fn position_from_raw(a: Decimal, b: Decimal, c: Decimal) -> (r: Vector3)
    ensures
        r@ == to_target_position(seq![a@, b@, c@]),
{
    let nb = b.negated();
    Vector3 { x: a, y: c, z: nb }
}

/// Converts a raw scale triple `(a, b, c)` into target space: `(a, c, b)`.
pub fn scale_from_raw(a: Decimal, b: Decimal, c: Decimal) -> (r: Vector3)
    ensures
        r@ == to_target_scale(seq![a@, b@, c@]),
{
    Vector3 { x: a, y: c, z: b }
}

pub open spec fn fields_view(f: Seq<Vec<char>>) -> Seq<Seq<char>> {
    f.map_values(|p: Vec<char>| p@)
}

fn field_decimal(f: &Vec<Vec<char>>, k: usize) -> (r: Option<Decimal>)
    requires
        k < f@.len(),
    ensures
        match r {
            Some(d) => decimal_of(fields_view(f@)[k as int]) == Some(d@),
            None => decimal_of(fields_view(f@)[k as int]) is None,
        },
{
    parse_decimal(&f[k])
}

/// Builds the record that a line's fields stand for (see `decode_fields`).
pub fn instance_from_fields(f: &Vec<Vec<char>>) -> (r: Option<Instance>)
    ensures
        match r {
            Some(i) => decode_fields(fields_view(f@)) == Some(i@),
            None => decode_fields(fields_view(f@)) is None,
        },
{
    let ghost fv = fields_view(f@);
    if f.len() < 13 {
        return None;
    }
    assert(fv[0] == f@[0]@ && fv[1] == f@[1]@ && fv[2] == f@[2]@);
    if !is_integer_numeral_exec(f[0].as_slice()) {
        return None;
    }
    let interior = match parse_u32(f[2].as_slice()) {
        Some(v) => v,
        None => return None,
    };
    let p0 = match field_decimal(f, 3) { Some(d) => d, None => return None };
    let p1 = match field_decimal(f, 4) { Some(d) => d, None => return None };
    let p2 = match field_decimal(f, 5) { Some(d) => d, None => return None };
    let s0 = match field_decimal(f, 6) { Some(d) => d, None => return None };
    let s1 = match field_decimal(f, 7) { Some(d) => d, None => return None };
    let s2 = match field_decimal(f, 8) { Some(d) => d, None => return None };
    let q0 = match field_decimal(f, 9) { Some(d) => d, None => return None };
    let q1 = match field_decimal(f, 10) { Some(d) => d, None => return None };
    let q2 = match field_decimal(f, 11) { Some(d) => d, None => return None };
    let q3 = match field_decimal(f, 12) { Some(d) => d, None => return None };
    assert(decimals_ok(fv, 3, 13));
    assert(decimals(fv, 3, 6) =~= seq![p0@, p1@, p2@]);
    assert(decimals(fv, 6, 9) =~= seq![s0@, s1@, s2@]);
    assert(decimals(fv, 9, 13) =~= seq![q0@, q1@, q2@, q3@]);
    let name = string_of(f[1].as_slice());
    let position = position_from_raw(p0, p1, p2);
    let scale = scale_from_raw(s0, s1, s2);
    let rotation = Quaternion { x: q0, y: q1, z: q2, w: q3 };
    let r = Instance { model_name: name, interior, position, scale, rotation };
    assert(r@.rotation =~= decimals(fv, 9, 13));
    Some(r)
}

impl Ipl {
    /// Decodes a placement list: the records of its instance section, in
    /// line order. Fails when a section is left open, when there is no
    /// instance section (an empty one is fine), or at the first instance line
    /// that does not decode.
    pub fn parse(data: &str) -> (r: Result<Ipl, AssetError>)
        ensures
            match r {
                Ok(ipl) => parse_spec(data@) == Ok::<_, AssetError>(ipl@),
                Err(e) => parse_spec(data@) == Err::<Seq<InstanceView>, _>(e),
            },
    {
        let secs = categorise_lines(data)?;
        let tag: Vec<char> = vec!['i', 'n', 's', 't'];
        assert(tag@ =~= inst_tag());
        let j = match find_section(&secs, &tag) {
            Some(j) => j,
            None => return Err(AssetError::MissingRequiredSection),
        };
        let lines = &secs[j].lines;
        let ghost lv = fields_view(lines@);
        assert(lv == crate::sections::sections_view(secs@)[j as int].1);
        let mut instances: Vec<Instance> = Vec::new();
        let mut n: usize = 0;
        assert(instances@.map_values(|i: Instance| i@) =~= seq![]);
        while n < lines.len()
            invariant
                n <= lines@.len(),
                lv == fields_view(lines@),
                j < secs@.len(),
                categorise_spec(data@) == Ok::<_, AssetError>(crate::sections::sections_view(secs@)),
                j == index_of_tag(crate::sections::sections_view(secs@), inst_tag()),
                lv == crate::sections::sections_view(secs@)[j as int].1,
                decode_lines(lv, n as nat) == Ok::<_, nat>(instances@.map_values(|i: Instance| i@)),
            decreases lines@.len() - n,
        {
            let fields = split_line(&lines[n]);
            assert(lv[n as int] == lines@[n as int]@);
            match instance_from_fields(&fields) {
                Some(inst) => {
                    let ghost prev = instances@;
                    instances.push(inst);
                    assert(instances@.map_values(|i: Instance| i@) =~= prev.map_values(
                        |i: Instance| i@,
                    ).push(inst@));
                },
                None => {
                    proof {
                        assert(fields_view(fields@) == fields_of(lv[n as int]));
                        assert(decode_lines(lv, (n + 1) as nat) == Err::<Seq<InstanceView>, nat>(
                            n as nat,
                        ));
                        lemma_decode_lines_err_stays(lv, (n + 1) as nat, lv.len());
                    }
                    return Err(AssetError::MalformedLine(n));
                },
            }
            n = n + 1;
        }
        Ok(Ipl { instances })
    }
}

proof fn lemma_decode_lines_err_stays(lines: Seq<Seq<char>>, m: nat, n: nat)
    requires
        m <= n,
        decode_lines(lines, m) is Err,
    ensures
        decode_lines(lines, n) == decode_lines(lines, m),
    decreases n - m,
{
    if m < n {
        lemma_decode_lines_err_stays(lines, m, (n - 1) as nat);
    }
}

proof fn lemma_decode_lines_len(lines: Seq<Seq<char>>, n: nat)
    requires
        decode_lines(lines, n) is Ok,
    ensures
        decode_lines(lines, n)->Ok_0.len() == n,
    decreases n,
{
    if n > 0 {
        lemma_decode_lines_len(lines, (n - 1) as nat);
    }
}

/// A placement list that decodes yields exactly one record per data line of
/// its instance section.
pub proof fn lemma_record_count(text: Seq<char>)
    requires
        parse_spec(text) is Ok,
    ensures
        instance_lines(text) is Some,
        parse_spec(text)->Ok_0.len() == instance_lines(text)->0.len(),
{
    let secs = categorise_spec(text)->Ok_0;
    let j = index_of_tag(secs, inst_tag());
    lemma_decode_lines_len(secs[j].1, secs[j].1.len());
}

/// The conversions are not inverses of themselves: converting a position
/// twice gives `(a, -b, -c)` for a raw `(a, b, c)`, while converting a scale
/// twice gives the raw triple back.
pub proof fn lemma_conversion_twice(raw: Seq<(bool, Seq<char>)>)
    requires
        raw.len() == 3,
    ensures
        to_target_position(to_target_position(raw)) == seq![raw[0], negate(raw[1]), negate(raw[2])],
        to_target_scale(to_target_scale(raw)) == raw,
{
    assert(to_target_position(to_target_position(raw)) =~= seq![
        raw[0],
        negate(raw[1]),
        negate(raw[2]),
    ]);
    assert(to_target_scale(to_target_scale(raw)) =~= raw);
}

} // verus!
