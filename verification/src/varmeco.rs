//! Importer for Varmeco's per-product Modbus register CSV files.
//!
//! Format: semicolon-separated, UTF-8, optional UTF-8 BOM, CRLF or LF line
//! endings, first row is the header. Required columns: `Id`, `Register`,
//! `Type`, `Name`; the optional ones feed the default value, the data type
//! and a human-readable description.

use vstd::prelude::*;
use crate::encoding::{DataType, Encoding, Value};
use crate::model::{
    RegisterId, RegisterKind, RegisterPoint, first_index, lemma_first_index,
    lemma_first_index_unique,
};
use crate::text::{
    decimal, push_decimal,
    chars_of, ieq, lemma_split_nonempty, parse_i16, parse_i32, parse_u16, signed_value, span_eq,
    span_ieq, spans_view, spans_within, split, split_spans, strip_end, strip_end_span, trim,
    trim_span, unsigned_value, push_span, string_of,
};

verus! {

/// One row's worth of error context: file line number and message.
#[derive(Debug, Clone)]
pub struct ImportError {
    pub line: usize,
    pub message: String,
}

/// The registers that parsed, the per-row errors, and how many non-blank
/// data lines were looked at.
#[derive(Debug)]
pub struct ImportResult {
    pub registers: Vec<RegisterPoint>,
    pub errors: Vec<ImportError>,
    pub processed_lines: usize,
}

/// Column indices of every column the importer reads; `None` for an
/// optional column that the file does not have.
#[derive(Debug, Clone, Copy, PartialEq, Eq)]
pub struct Header {
    pub id: usize,
    pub register: usize,
    pub kind: usize,
    pub name: usize,
    pub value_type: Option<usize>,
    pub value_handling: Option<usize>,
    pub format: Option<usize>,
    pub multiplicator: Option<usize>,
    pub divisor: Option<usize>,
    pub digi_visu_format: Option<usize>,
    pub security_level: Option<usize>,
    pub default_value: Option<usize>,
}

// ---------------------------------------------------------------------------
// The format, stated over characters

/// `s` without a leading byte order mark.
pub open spec fn strip_bom(s: Seq<char>) -> Seq<char> {
    if s.len() > 0 && s[0] == '\u{feff}' {
        s.drop_first()
    } else {
        s
    }
}

/// The lines of a file: the pieces between `\n`, where a final empty piece
/// (the file ends with a line break, or is empty) is no line.
pub open spec fn file_lines(s: Seq<char>) -> Seq<Seq<char>> {
    let p = split(s, '\n');
    if p.last().len() == 0 {
        p.drop_last()
    } else {
        p
    }
}

/// The trimmed cells of a header line.
pub open spec fn header_cells(line: Seq<char>) -> Seq<Seq<char>> {
    split(strip_end(strip_bom(line), '\r'), ';').map_values(|c: Seq<char>| trim(c))
}

/// Index of the first cell equal to `name` up to ASCII case.
#[verifier::opaque]
pub open spec fn column(cells: Seq<Seq<char>>, name: Seq<char>) -> Option<usize> {
    match first_index(cells, |c: Seq<char>| ieq(c, name)) {
        Some(i) => Some(i as usize),
        None => None,
    }
}

pub open spec fn missing_header(name: Seq<char>) -> Seq<char> {
    "required header '"@ + name + "' is missing"@
}

/// The header a line describes, or the message for the first required
/// column (in the order `Id`, `Register`, `Type`, `Name`) it lacks.
pub open spec fn spec_header(line: Seq<char>) -> Result<Header, Seq<char>> {
    let cs = header_cells(line);
    if column(cs, "Id"@) is None {
        Err(missing_header("Id"@))
    } else if column(cs, "Register"@) is None {
        Err(missing_header("Register"@))
    } else if column(cs, "Type"@) is None {
        Err(missing_header("Type"@))
    } else if column(cs, "Name"@) is None {
        Err(missing_header("Name"@))
    } else {
        Ok(
            Header {
                id: column(cs, "Id"@)->0,
                register: column(cs, "Register"@)->0,
                kind: column(cs, "Type"@)->0,
                name: column(cs, "Name"@)->0,
                value_type: column(cs, "ValueType"@),
                value_handling: column(cs, "ValueHandling"@),
                format: column(cs, "Format"@),
                multiplicator: column(cs, "Multiplicator"@),
                divisor: column(cs, "Divisor"@),
                digi_visu_format: column(cs, "DigiVisuFormat"@),
                security_level: column(cs, "SecurityLevel"@),
                default_value: column(cs, "DefaultValue"@),
            },
        )
    }
}

// ---------------------------------------------------------------------------
// Header

/// Index of the first span of `v` equal to `name` up to ASCII case.
fn find_column(v: &Vec<char>, cells: &Vec<(usize, usize)>, name: &str) -> (r: Option<usize>)
    requires
        spans_within(cells@, 0, v@.len() as int),
    ensures
        r == column(spans_view(v@, cells@), name@),
{
    let ghost cs = spans_view(v@, cells@);
    let ghost p = |c: Seq<char>| ieq(c, name@);
    proof {
        reveal(column);
        lemma_first_index(cs, p);
    }
    let mut k: usize = 0;
    while k < cells.len()
        invariant
            k <= cells@.len(),
            cs == spans_view(v@, cells@),
            p == (|c: Seq<char>| ieq(c, name@)),
            spans_within(cells@, 0, v@.len() as int),
            forall|j: int| 0 <= j < k ==> !p(#[trigger] cs[j]),
        decreases cells@.len() - k,
    {
        let (lo, hi) = cells[k];
        assert(cs[k as int] == v@.subrange(lo as int, hi as int));
        if span_ieq(v, lo, hi, name) {
            proof {
                reveal(column);
                lemma_first_index_unique(cs, p, k as int);
            }
            return Some(k);
        }
        k = k + 1;
    }
    proof {
        reveal(column);
    }
    None
}

fn missing(name: &str) -> (r: String)
    ensures
        r@ == missing_header(name@),
{
    let mut m = String::from_str("required header '");
    m.append(name);
    m.append("' is missing");
    m
}

/// The trimmed cells of the header line `v[lo..hi]`.
fn header_spans(v: &Vec<char>, lo: usize, hi: usize) -> (r: Vec<(usize, usize)>)
    requires
        lo <= hi <= v@.len(),
    ensures
        spans_within(r@, 0, v@.len() as int),
        spans_view(v@, r@) == header_cells(v@.subrange(lo as int, hi as int)),
{
    let ghost line = v@.subrange(lo as int, hi as int);
    let mut a = lo;
    if lo < hi && v[lo] == '\u{feff}' {
        a = lo + 1;
    }
    assert(v@.subrange(a as int, hi as int) =~= strip_bom(line));
    let b = strip_end_span(v, a, hi, '\r');
    let raw = split_spans(v, a, b, ';');
    let mut out: Vec<(usize, usize)> = Vec::new();
    let mut k: usize = 0;
    while k < raw.len()
        invariant
            k <= raw@.len(),
            out@.len() == k,
            spans_within(raw@, a as int, b as int),
            a <= b <= v@.len(),
            spans_within(out@, 0, v@.len() as int),
            forall|j: int| 0 <= j < k ==> #[trigger] spans_view(v@, out@)[j] == trim(
                spans_view(v@, raw@)[j],
            ),
        decreases raw@.len() - k,
    {
        let (lo2, hi2) = raw[k];
        let t = trim_span(v, lo2, hi2);
        let ghost before = out@;
        out.push(t);
        assert forall|j: int| 0 <= j <= k implies #[trigger] spans_view(v@, out@)[j] == trim(
            spans_view(v@, raw@)[j],
        ) by {
            if j < k {
                assert(out@[j] == before[j]);
                assert(spans_view(v@, before)[j] == trim(spans_view(v@, raw@)[j]));
            }
        }
        k = k + 1;
    }
    assert(spans_view(v@, out@) =~= header_cells(line));
    out
}

impl Header {
    /// The header that `v[lo..hi]` describes.
    fn from_span(v: &Vec<char>, lo: usize, hi: usize) -> (r: Result<Header, String>)
        requires
            lo <= hi <= v@.len(),
        ensures
            match spec_header(v@.subrange(lo as int, hi as int)) {
                Ok(h) => r == Ok::<Header, String>(h),
                Err(m) => r matches Err(e) && e@ == m,
            },
    {
        let cells = header_spans(v, lo, hi);
        let id = match find_column(v, &cells, "Id") {
            Some(i) => i,
            None => {
                return Err(missing("Id"));
            },
        };
        let register = match find_column(v, &cells, "Register") {
            Some(i) => i,
            None => {
                return Err(missing("Register"));
            },
        };
        let kind = match find_column(v, &cells, "Type") {
            Some(i) => i,
            None => {
                return Err(missing("Type"));
            },
        };
        let name = match find_column(v, &cells, "Name") {
            Some(i) => i,
            None => {
                return Err(missing("Name"));
            },
        };
        Ok(
            Header {
                id,
                register,
                kind,
                name,
                value_type: find_column(v, &cells, "ValueType"),
                value_handling: find_column(v, &cells, "ValueHandling"),
                format: find_column(v, &cells, "Format"),
                multiplicator: find_column(v, &cells, "Multiplicator"),
                divisor: find_column(v, &cells, "Divisor"),
                digi_visu_format: find_column(v, &cells, "DigiVisuFormat"),
                security_level: find_column(v, &cells, "SecurityLevel"),
                default_value: find_column(v, &cells, "DefaultValue"),
            },
        )
    }

    /// Reads the column layout from the header line; the error names the
    /// first required column that is missing.
    pub fn parse(line: &str) -> (r: Result<Header, String>)
        ensures
            match spec_header(line@) {
                Ok(h) => r == Ok::<Header, String>(h),
                Err(m) => r matches Err(e) && e@ == m,
            },
    {
        let v = chars_of(line);
        assert(v@.subrange(0, v@.len() as int) =~= line@);
        Header::from_span(&v, 0, v.len())
    }
}

// ---------------------------------------------------------------------------
// Rows, stated over characters

/// Cell `i` of a row, empty past its end.
pub open spec fn cell_at(cells: Seq<Seq<char>>, i: int) -> Seq<char> {
    if 0 <= i < cells.len() {
        cells[i]
    } else {
        Seq::<char>::empty()
    }
}

/// The cell of an optional column, empty when the file has no such column.
pub open spec fn opt_cell(cells: Seq<Seq<char>>, i: Option<usize>) -> Seq<char> {
    match i {
        Some(k) => cell_at(cells, k as int),
        None => Seq::<char>::empty(),
    }
}

/// A `Type` cell: a numeric code 0..=3 (coil, discrete input, holding,
/// input), or one of the names, in any ASCII case.
pub open spec fn spec_kind(s: Seq<char>) -> Option<RegisterKind> {
    match signed_value(s, -0x8000_0000, 0x7fff_ffff) {
        Some(n) => if n == 0 {
            Some(RegisterKind::Coil)
        } else if n == 1 {
            Some(RegisterKind::Discrete)
        } else if n == 2 {
            Some(RegisterKind::Holding)
        } else if n == 3 {
            Some(RegisterKind::Input)
        } else {
            None
        },
        None => if ieq(s, "coil"@) {
            Some(RegisterKind::Coil)
        } else if ieq(s, "discrete-input"@) || ieq(s, "discrete_input"@) {
            Some(RegisterKind::Discrete)
        } else if ieq(s, "holding-register"@) || ieq(s, "holding_register"@) {
            Some(RegisterKind::Holding)
        } else if ieq(s, "input-register"@) || ieq(s, "input_register"@) {
            Some(RegisterKind::Input)
        } else {
            None
        },
    }
}

/// A `ValueType` cell names a signed 16-bit value (anything else,
/// including nothing, is unsigned).
pub open spec fn is_signed_type(s: Seq<char>) -> bool {
    ieq(s, "int16"@) || ieq(s, "int16_t"@)
}

/// A coil's `DefaultValue`: `1`, `true` or `on` (any case) set it.
pub open spec fn bool_default(s: Seq<char>) -> bool {
    let t = trim(s);
    t == "1"@ || ieq(t, "true"@) || ieq(t, "on"@)
}

/// `parts` joined with `sep` between them.
pub open spec fn join(parts: Seq<Seq<char>>, sep: Seq<char>) -> Seq<char>
    decreases parts.len(),
{
    if parts.len() == 0 {
        Seq::<char>::empty()
    } else if parts.len() == 1 {
        parts[0]
    } else {
        join(parts.drop_last(), sep) + sep + parts.last()
    }
}

/// The separator of description parts: a middle dot between spaces.
pub open spec fn part_sep() -> Seq<char> {
    " \u{b7} "@
}

/// The parts of a register's description: its label, then the scaling,
/// unit, value handling, access level and display format the file gives,
/// each where it says more than the default.
pub open spec fn description_parts(h: Header, cells: Seq<Seq<char>>, name: Seq<char>) -> Seq<
    Seq<char>,
> {
    let mult = trim(opt_cell(cells, h.multiplicator));
    let div = trim(opt_cell(cells, h.divisor));
    let p1 = seq![name];
    let p2 = if (mult.len() > 0 && mult != "1"@) || (div.len() > 0 && div != "1"@) {
        p1.push(
            "scale \u{d7}"@ + (if mult.len() == 0 {
                "1"@
            } else {
                mult
            }) + "/"@ + (if div.len() == 0 {
                "1"@
            } else {
                div
            }),
        )
    } else {
        p1
    };
    let suffix = trim(opt_cell(cells, h.format));
    let p3 = if suffix.len() > 0 {
        p2.push("unit "@ + suffix)
    } else {
        p2
    };
    let handling = trim(opt_cell(cells, h.value_handling));
    let p4 = if handling.len() > 0 && !ieq(handling, "ON_CONFLICT_MASTER_HAS_PRIORITY"@) {
        p3.push(handling)
    } else {
        p3
    };
    let security = trim(opt_cell(cells, h.security_level));
    let p5 = if security.len() > 0 && !ieq(security, "ALL"@) {
        p4.push("auth: "@ + security)
    } else {
        p4
    };
    let visu = trim(opt_cell(cells, h.digi_visu_format));
    if visu.len() > 0 {
        p5.push("fmt "@ + visu)
    } else {
        p5
    }
}

/// What a data row yields: everything of the register but its fresh id.
pub struct RowModel {
    pub kind: RegisterKind,
    pub address: u16,
    pub name: Seq<char>,
    pub description: Seq<char>,
    pub data_type: DataType,
    pub default_value: Value,
}

/// A data row (without its line break): the register it describes, or
/// the message of the first check it fails (in the order: empty `Id`,
/// `Register` not a `u16`, unknown `Type`, empty `Name`).
pub open spec fn spec_row(h: Header, line: Seq<char>) -> Result<RowModel, Seq<char>> {
    let cells = split(line, ';');
    let id = trim(cell_at(cells, h.id as int));
    let reg = cell_at(cells, h.register as int);
    let kind_cell = cell_at(cells, h.kind as int);
    let name = trim(cell_at(cells, h.name as int));
    if id.len() == 0 {
        Err("Id is empty"@)
    } else if unsigned_value(trim(reg), 0xffff) is None {
        Err("Register '"@ + reg + "' is not a u16"@)
    } else if spec_kind(trim(kind_cell)) is None {
        Err("Type '"@ + kind_cell + "' is unknown"@)
    } else if name.len() == 0 {
        Err("Name is empty"@)
    } else {
        let kind = spec_kind(trim(kind_cell))->0;
        let dflt = trim(opt_cell(cells, h.default_value));
        let (data_type, default_value) = if kind.spec_is_bit() {
            (DataType::U16, Value::Bool(bool_default(dflt)))
        } else if is_signed_type(trim(opt_cell(cells, h.value_type))) {
            (
                DataType::I16,
                Value::I16(
                    match signed_value(dflt, -0x8000, 0x7fff) {
                        Some(x) => x as i16,
                        None => 0,
                    },
                ),
            )
        } else {
            (
                DataType::U16,
                Value::U16(
                    match unsigned_value(dflt, 0xffff) {
                        Some(x) => x as u16,
                        None => 0,
                    },
                ),
            )
        };
        Ok(
            RowModel {
                kind,
                address: unsigned_value(trim(reg), 0xffff)->0 as u16,
                name: id,
                description: join(description_parts(h, cells, name), part_sep()),
                data_type,
                default_value,
            },
        )
    }
}

/// `p` is the register `row` describes (under whatever id).
pub open spec fn point_is(p: RegisterPoint, row: RowModel) -> bool {
    &&& p.kind == row.kind
    &&& p.address == row.address
    &&& p.name@ == row.name
    &&& p.description@ == row.description
    &&& p.data_type == row.data_type
    &&& p.encoding == Encoding::BigEndian
    &&& p.byte_length is None
    &&& p.default_value == row.default_value
}

// ---------------------------------------------------------------------------
// Rows

/// The span of cell `i`, or an empty span.
fn cell_span(v: &Vec<char>, cells: &Vec<(usize, usize)>, i: usize) -> (r: (usize, usize))
    requires
        spans_within(cells@, 0, v@.len() as int),
    ensures
        r.0 <= r.1 <= v@.len(),
        v@.subrange(r.0 as int, r.1 as int) == cell_at(spans_view(v@, cells@), i as int),
{
    if i < cells.len() {
        cells[i]
    } else {
        assert(v@.subrange(0, 0) =~= Seq::<char>::empty());
        (0, 0)
    }
}

/// The trimmed span of an optional column's cell.
fn opt_cell_trimmed(v: &Vec<char>, cells: &Vec<(usize, usize)>, i: Option<usize>) -> (r: (
    usize,
    usize,
))
    requires
        spans_within(cells@, 0, v@.len() as int),
    ensures
        r.0 <= r.1 <= v@.len(),
        v@.subrange(r.0 as int, r.1 as int) == trim(opt_cell(spans_view(v@, cells@), i)),
{
    match i {
        Some(k) => {
            let (lo, hi) = cell_span(v, cells, k);
            trim_span(v, lo, hi)
        },
        None => {
            assert(v@.subrange(0, 0) =~= Seq::<char>::empty());
            assert(trim(Seq::<char>::empty()) =~= Seq::<char>::empty());
            (0, 0)
        },
    }
}

fn parse_kind(v: &Vec<char>, lo: usize, hi: usize) -> (r: Option<RegisterKind>)
    requires
        lo <= hi <= v@.len(),
    ensures
        r == spec_kind(v@.subrange(lo as int, hi as int)),
{
    if let Some(n) = parse_i32(v, lo, hi) {
        return match n {
            0 => Some(RegisterKind::Coil),
            1 => Some(RegisterKind::Discrete),
            2 => Some(RegisterKind::Holding),
            3 => Some(RegisterKind::Input),
            _ => None,
        };
    }
    if span_ieq(v, lo, hi, "coil") {
        Some(RegisterKind::Coil)
    } else if span_ieq(v, lo, hi, "discrete-input") || span_ieq(v, lo, hi, "discrete_input") {
        Some(RegisterKind::Discrete)
    } else if span_ieq(v, lo, hi, "holding-register") || span_ieq(v, lo, hi, "holding_register") {
        Some(RegisterKind::Holding)
    } else if span_ieq(v, lo, hi, "input-register") || span_ieq(v, lo, hi, "input_register") {
        Some(RegisterKind::Input)
    } else {
        None
    }
}

#[derive(Debug, Clone, Copy, PartialEq, Eq)]
enum ValueType {
    U16,
    I16,
}

fn parse_value_type(v: &Vec<char>, lo: usize, hi: usize) -> (r: ValueType)
    requires
        lo <= hi <= v@.len(),
    ensures
        (r == ValueType::I16) == is_signed_type(v@.subrange(lo as int, hi as int)),
{
    if span_ieq(v, lo, hi, "int16") || span_ieq(v, lo, hi, "int16_t") {
        ValueType::I16
    } else {
        ValueType::U16
    }
}

fn parse_bool_default(v: &Vec<char>, lo: usize, hi: usize) -> (r: bool)
    requires
        lo <= hi <= v@.len(),
    ensures
        r == bool_default(v@.subrange(lo as int, hi as int)),
{
    let (a, b) = trim_span(v, lo, hi);
    let ghost t = v@.subrange(a as int, b as int);
    proof {
        reveal_strlit("0");
        reveal_strlit("1");
        reveal_strlit("true");
        reveal_strlit("on");
        assert("1"@.len() == 1);
        assert("true"@.len() == 4);
        assert("on"@.len() == 2);
    }
    if a == b {
        assert(t.len() == 0);
        false
    } else if span_eq(v, a, b, "0") {
        assert(t[0] == '0');
        assert(t != "1"@);
        false
    } else if span_eq(v, a, b, "1") {
        true
    } else {
        span_ieq(v, a, b, "true") || span_ieq(v, a, b, "on")
    }
}

proof fn lemma_join_push(parts: Seq<Seq<char>>, sep: Seq<char>, p: Seq<char>)
    requires
        parts.len() >= 1,
    ensures
        join(parts.push(p), sep) == join(parts, sep) + sep + p,
{
    assert(parts.push(p).drop_last() =~= parts);
}

/// Appends the separator and a part to a description under construction.
fn push_part_sep(d: &mut String, Ghost(parts): Ghost<Seq<Seq<char>>>)
    requires
        parts.len() >= 1,
        old(d)@ == join(parts, part_sep()),
    ensures
        final(d)@ == join(parts, part_sep()) + part_sep(),
{
    d.append(" \u{b7} ");
}

/// The description of a row: its label and the optional columns that the
/// register model has no field for.
#[verifier::spinoff_prover]
#[verifier::rlimit(40)]
fn build_description(
    h: &Header,
    v: &Vec<char>,
    cells: &Vec<(usize, usize)>,
    name_lo: usize,
    name_hi: usize,
) -> (r: String)
    requires
        spans_within(cells@, 0, v@.len() as int),
        name_lo <= name_hi <= v@.len(),
    ensures
        r@ == join(
            description_parts(*h, spans_view(v@, cells@), v@.subrange(name_lo as int, name_hi as int)),
            part_sep(),
        ),
{
    let ghost cs = spans_view(v@, cells@);
    let ghost name = v@.subrange(name_lo as int, name_hi as int);
    let mut d = string_of(v, name_lo, name_hi);
    let ghost mut parts = seq![name];
    assert(join(parts, part_sep()) == name);

    let (mlo, mhi) = opt_cell_trimmed(v, cells, h.multiplicator);
    let (dlo, dhi) = opt_cell_trimmed(v, cells, h.divisor);
    let mult_set = mlo < mhi && !span_eq(v, mlo, mhi, "1");
    let div_set = dlo < dhi && !span_eq(v, dlo, dhi, "1");
    if mult_set || div_set {
        push_part_sep(&mut d, Ghost(parts));
        let ghost base = d@;
        d.append("scale \u{d7}");
        if mlo == mhi {
            d.append("1");
        } else {
            push_span(&mut d, v, mlo, mhi);
        }
        d.append("/");
        if dlo == dhi {
            d.append("1");
        } else {
            push_span(&mut d, v, dlo, dhi);
        }
        proof {
            let mult = v@.subrange(mlo as int, mhi as int);
            let div = v@.subrange(dlo as int, dhi as int);
            let part = "scale \u{d7}"@ + (if mult.len() == 0 {
                "1"@
            } else {
                mult
            }) + "/"@ + (if div.len() == 0 {
                "1"@
            } else {
                div
            });
            assert(d@ =~= base + part);
            lemma_join_push(parts, part_sep(), part);
            parts = parts.push(part);
        }
    }
    let (slo, shi) = opt_cell_trimmed(v, cells, h.format);
    if slo < shi {
        push_part_sep(&mut d, Ghost(parts));
        let ghost base = d@;
        d.append("unit ");
        push_span(&mut d, v, slo, shi);
        proof {
            let part = "unit "@ + v@.subrange(slo as int, shi as int);
            assert(d@ =~= base + part);
            lemma_join_push(parts, part_sep(), part);
            parts = parts.push(part);
        }
    }
    let (hlo, hhi) = opt_cell_trimmed(v, cells, h.value_handling);
    if hlo < hhi && !span_ieq(v, hlo, hhi, "ON_CONFLICT_MASTER_HAS_PRIORITY") {
        push_part_sep(&mut d, Ghost(parts));
        let ghost base = d@;
        push_span(&mut d, v, hlo, hhi);
        proof {
            let part = v@.subrange(hlo as int, hhi as int);
            lemma_join_push(parts, part_sep(), part);
            parts = parts.push(part);
        }
    }
    let (alo, ahi) = opt_cell_trimmed(v, cells, h.security_level);
    if alo < ahi && !span_ieq(v, alo, ahi, "ALL") {
        push_part_sep(&mut d, Ghost(parts));
        let ghost base = d@;
        d.append("auth: ");
        push_span(&mut d, v, alo, ahi);
        proof {
            let part = "auth: "@ + v@.subrange(alo as int, ahi as int);
            assert(d@ =~= base + part);
            lemma_join_push(parts, part_sep(), part);
            parts = parts.push(part);
        }
    }
    let (flo, fhi) = opt_cell_trimmed(v, cells, h.digi_visu_format);
    if flo < fhi {
        push_part_sep(&mut d, Ghost(parts));
        let ghost base = d@;
        d.append("fmt ");
        push_span(&mut d, v, flo, fhi);
        proof {
            let part = "fmt "@ + v@.subrange(flo as int, fhi as int);
            assert(d@ =~= base + part);
            lemma_join_push(parts, part_sep(), part);
            parts = parts.push(part);
        }
    }
    assert(parts =~= description_parts(*h, cs, name));
    d
}

proof fn lemma_spans_widen(spans: Seq<(usize, usize)>, lo: int, hi: int, lo2: int, hi2: int)
    requires
        spans_within(spans, lo, hi),
        lo2 <= lo,
        hi <= hi2,
    ensures
        spans_within(spans, lo2, hi2),
{
    assert forall|k: int| 0 <= k < spans.len() implies lo2 <= #[trigger] spans[k].0 <= spans[k].1
        <= hi2 by {
        assert(lo <= spans[k].0 <= spans[k].1 <= hi);
    }
}

fn row_error(line_no: usize, message: String) -> (r: ImportError)
    ensures
        r.line == line_no,
        r.message@ == message@,
{
    ImportError { line: line_no, message }
}

/// The register a data row (without its line break) describes, with a
/// fresh id, or the error for that line.
#[verifier::spinoff_prover]
fn parse_row(h: &Header, v: &Vec<char>, lo: usize, hi: usize, line_no: usize) -> (r: Result<
    RegisterPoint,
    ImportError,
>)
    requires
        lo <= hi <= v@.len(),
    ensures
        match spec_row(*h, v@.subrange(lo as int, hi as int)) {
            Ok(row) => r matches Ok(p) && point_is(p, row),
            Err(m) => r matches Err(e) && e.line == line_no && e.message@ == m,
        },
{
    let ghost line = v@.subrange(lo as int, hi as int);
    let cells = split_spans(v, lo, hi, ';');
    proof {
        lemma_spans_widen(cells@, lo as int, hi as int, 0, v@.len() as int);
    }
    let ghost cs = spans_view(v@, cells@);
    assert(cs == split(line, ';'));

    let (ilo, ihi) = cell_span(v, &cells, h.id);
    let (ilo, ihi) = trim_span(v, ilo, ihi);
    if ilo == ihi {
        return Err(row_error(line_no, String::from_str("Id is empty")));
    }
    let (rlo, rhi) = cell_span(v, &cells, h.register);
    let (tlo, thi) = trim_span(v, rlo, rhi);
    let address = match parse_u16(v, tlo, thi) {
        Some(a) => a,
        None => {
            let mut m = String::from_str("Register '");
            push_span(&mut m, v, rlo, rhi);
            m.append("' is not a u16");
            return Err(row_error(line_no, m));
        },
    };
    let (klo, khi) = cell_span(v, &cells, h.kind);
    let (tlo, thi) = trim_span(v, klo, khi);
    let kind = match parse_kind(v, tlo, thi) {
        Some(k) => k,
        None => {
            let mut m = String::from_str("Type '");
            push_span(&mut m, v, klo, khi);
            m.append("' is unknown");
            return Err(row_error(line_no, m));
        },
    };
    let (nlo, nhi) = cell_span(v, &cells, h.name);
    let (nlo, nhi) = trim_span(v, nlo, nhi);
    if nlo == nhi {
        return Err(row_error(line_no, String::from_str("Name is empty")));
    }
    let (tlo, thi) = opt_cell_trimmed(v, &cells, h.value_type);
    let value_type = parse_value_type(v, tlo, thi);
    let (dlo, dhi) = opt_cell_trimmed(v, &cells, h.default_value);
    let (data_type, default_value) = match kind {
        RegisterKind::Coil | RegisterKind::Discrete => {
            let b = parse_bool_default(v, dlo, dhi);
            (DataType::U16, Value::Bool(b))
        },
        RegisterKind::Holding | RegisterKind::Input => match value_type {
            ValueType::U16 => {
                let x = match parse_u16(v, dlo, dhi) {
                    Some(x) => x,
                    None => 0,
                };
                (DataType::U16, Value::U16(x))
            },
            ValueType::I16 => {
                let x = match parse_i16(v, dlo, dhi) {
                    Some(x) => x,
                    None => 0,
                };
                (DataType::I16, Value::I16(x))
            },
        },
    };
    let description = build_description(h, v, &cells, nlo, nhi);
    Ok(
        RegisterPoint {
            id: RegisterId::new(),
            kind,
            address,
            name: string_of(v, ilo, ihi),
            description,
            data_type,
            encoding: Encoding::BigEndian,
            byte_length: None,
            default_value,
        },
    )
}

// ---------------------------------------------------------------------------
// Files

/// What an import yields: the rows that parsed, the `(line, message)` of
/// each error, and the number of non-blank data lines.
pub struct ImportModel {
    pub rows: Seq<RowModel>,
    pub errors: Seq<(int, Seq<char>)>,
    pub processed: int,
}

/// The import of data lines `1..n` of a file (line `k` has number `k + 1`,
/// the header being line 1): blank lines (after dropping trailing `\r`)
/// are skipped; every other line adds a register or an error.
pub open spec fn body_model(h: Header, lines: Seq<Seq<char>>, n: int) -> ImportModel
    decreases n,
{
    if n <= 1 {
        ImportModel { rows: Seq::empty(), errors: Seq::empty(), processed: 0 }
    } else {
        let m = body_model(h, lines, n - 1);
        let line = strip_end(lines[n - 1], '\r');
        if trim(line).len() == 0 {
            m
        } else {
            match spec_row(h, line) {
                Ok(row) => ImportModel { rows: m.rows.push(row), errors: m.errors, processed: m.processed + 1 },
                Err(msg) => ImportModel {
                    rows: m.rows,
                    errors: m.errors.push((n, msg)),
                    processed: m.processed + 1,
                },
            }
        }
    }
}

/// The import of a whole file: an `empty file` error at line 0 when it has
/// no line, the header's error at line 1, or else its data lines.
pub open spec fn spec_import(input: Seq<char>) -> ImportModel {
    let lines = file_lines(strip_bom(input));
    if lines.len() == 0 {
        ImportModel { rows: Seq::empty(), errors: seq![(0int, "empty file"@)], processed: 0 }
    } else {
        match spec_header(lines[0]) {
            Err(m) => ImportModel { rows: Seq::empty(), errors: seq![(1int, m)], processed: 0 },
            Ok(h) => body_model(h, lines, lines.len() as int),
        }
    }
}

/// `r` holds what `m` describes, every register under a fresh id.
pub open spec fn result_is(r: ImportResult, m: ImportModel) -> bool {
    &&& r.processed_lines == m.processed
    &&& r.registers@.len() == m.rows.len()
    &&& forall|i: int| 0 <= i < m.rows.len() ==> point_is(#[trigger] r.registers@[i], m.rows[i])
    &&& r.errors@.len() == m.errors.len()
    &&& forall|i: int|
        0 <= i < m.errors.len() ==> (#[trigger] r.errors@[i]).line == m.errors[i].0
            && r.errors@[i].message@ == m.errors[i].1
}

proof fn lemma_body_processed(h: Header, lines: Seq<Seq<char>>, n: int)
    ensures
        0 <= body_model(h, lines, n).processed,
        n >= 1 ==> body_model(h, lines, n).processed <= n - 1,
    decreases n,
{
    if n > 1 {
        lemma_body_processed(h, lines, n - 1);
    }
}

/// Parses a Varmeco-style CSV: the registers it could parse plus a list of
/// per-row errors. A file with no line, or whose header lacks a required
/// column, yields that single error and no registers.
pub fn parse(input: &str) -> (r: ImportResult)
    ensures
        result_is(r, spec_import(input@)),
{
    let v = chars_of(input);
    let ghost text = strip_bom(input@);
    let start: usize = if v.len() > 0 && v[0] == '\u{feff}' {
        1
    } else {
        0
    };
    assert(v@.subrange(start as int, v@.len() as int) =~= text);
    let mut lines = split_spans(&v, start, v.len(), '\n');
    proof {
        lemma_split_nonempty(text, '\n');
        lemma_spans_widen(lines@, start as int, v@.len() as int, 0, v@.len() as int);
    }
    let ghost all = lines@;
    let last = lines[lines.len() - 1];
    if last.0 == last.1 {
        lines.pop();
        assert(lines@ =~= all.drop_last());
    }
    let ghost ls = spans_view(v@, lines@);
    assert(ls =~= file_lines(text));
    assert(spans_within(lines@, 0, v@.len() as int));

    let mut result = ImportResult { registers: Vec::new(), errors: Vec::new(), processed_lines: 0 };
    if lines.len() == 0 {
        result.errors.push(row_error(0, String::from_str("empty file")));
        assert(result.errors@[0].line == 0);
        return result;
    }
    let (hlo, hhi) = lines[0];
    let header = match Header::from_span(&v, hlo, hhi) {
        Ok(h) => h,
        Err(m) => {
            result.errors.push(row_error(1, m));
            assert(result.errors@[0].line == 1);
            return result;
        },
    };
    let mut k: usize = 1;
    while k < lines.len()
        invariant
            1 <= k <= lines@.len(),
            ls == spans_view(v@, lines@),
            spans_within(lines@, 0, v@.len() as int),
            spec_header(ls[0]) == Ok::<Header, Seq<char>>(header),
            result_is(result, body_model(header, ls, k as int)),
        decreases lines@.len() - k,
    {
        proof {
            lemma_body_processed(header, ls, k as int);
        }
        let (lo, hi) = lines[k];
        let e = strip_end_span(&v, lo, hi, '\r');
        let (tlo, thi) = trim_span(&v, lo, e);
        let ghost before = result;
        assert(ls[k as int] == v@.subrange(lo as int, hi as int));
        if tlo < thi {
            result.processed_lines = result.processed_lines + 1;
            match parse_row(&header, &v, lo, e, k + 1) {
                Ok(rp) => {
                    result.registers.push(rp);
                    assert forall|i: int|
                        0 <= i < body_model(header, ls, k + 1).rows.len() implies point_is(
                        #[trigger] result.registers@[i],
                        body_model(header, ls, k + 1).rows[i],
                    ) by {
                        if i < before.registers@.len() {
                            assert(result.registers@[i] == before.registers@[i]);
                        }
                    }
                },
                Err(err) => {
                    result.errors.push(err);
                    assert forall|i: int| 0 <= i < body_model(header, ls, k + 1).errors.len() implies (
                    #[trigger] result.errors@[i]).line == body_model(header, ls, k + 1).errors[i].0
                        && result.errors@[i].message@ == body_model(header, ls, k + 1).errors[i].1 by {
                        if i < before.errors@.len() {
                            assert(result.errors@[i] == before.errors@[i]);
                        }
                    }
                },
            }
        }
        k = k + 1;
    }
    result
}

/// Each non-blank data line is accounted for exactly once: as a register
/// or as an error, and every error names a data line (line 2 or later).
pub proof fn law_import_accounts_for_every_line(h: Header, lines: Seq<Seq<char>>, n: int)
    ensures
        body_model(h, lines, n).processed == body_model(h, lines, n).rows.len() + body_model(
            h,
            lines,
            n,
        ).errors.len(),
        forall|i: int|
            0 <= i < body_model(h, lines, n).errors.len() ==> 2 <= #[trigger] body_model(
                h,
                lines,
                n,
            ).errors[i].0 <= n,
    decreases n,
{
    if n > 1 {
        law_import_accounts_for_every_line(h, lines, n - 1);
    }
}

/// A file with no line, or whose header lacks a required column, yields a
/// single error and no registers.
pub proof fn law_import_header_failure(input: Seq<char>)
    requires
        file_lines(strip_bom(input)).len() == 0 || spec_header(file_lines(strip_bom(input))[0]) is Err,
    ensures
        spec_import(input).rows.len() == 0,
        spec_import(input).errors.len() == 1,
        spec_import(input).processed == 0,
{
}

/// One error as the API reports it: `line N: message`.
pub open spec fn error_line(e: ImportError) -> Seq<char> {
    "line "@ + decimal(e.line as nat) + ": "@ + e.message@
}

/// The errors as the API reports them, joined by `; `.
pub open spec fn errors_text(errors: Seq<ImportError>) -> Seq<char> {
    join(errors.map_values(|e: ImportError| error_line(e)), "; "@)
}

/// Why an import yields no device type: `None` when some register parsed;
/// otherwise the joined errors, or `no registers found` when there are none.
pub open spec fn spec_import_failure(r: ImportResult) -> Option<Seq<char>> {
    if r.registers@.len() > 0 {
        None
    } else if r.errors@.len() == 0 {
        Some("no registers found"@)
    } else {
        Some(errors_text(r.errors@))
    }
}

/// Whether an import result can become a device type, and if not, the
/// message to report.
pub fn import_failure(r: &ImportResult) -> (m: Option<String>)
    ensures
        match spec_import_failure(*r) {
            None => m is None,
            Some(t) => m matches Some(s) && s@ == t,
        },
{
    if r.registers.len() > 0 {
        return None;
    }
    if r.errors.len() == 0 {
        return Some(String::from_str("no registers found"));
    }
    let mut out = String::new();
    let ghost es = r.errors@;
    let mut k: usize = 0;
    while k < r.errors.len()
        invariant
            k <= es.len(),
            es == r.errors@,
            k > 0 ==> out@ == errors_text(es.take(k as int)),
            k == 0 ==> out@ == Seq::<char>::empty(),
        decreases es.len() - k,
    {
        let ghost before = out@;
        if k > 0 {
            out.append("; ");
        }
        out.append("line ");
        push_decimal(&mut out, r.errors[k].line as u64);
        out.append(": ");
        out.append(r.errors[k].message.as_str());
        proof {
            let parts = es.take(k + 1).map_values(|e: ImportError| error_line(e));
            assert(parts.drop_last() =~= es.take(k as int).map_values(|e: ImportError| error_line(e)));
            assert(parts.last() == error_line(es[k as int]));
            if k == 0 {
                assert(parts.len() == 1);
                assert(out@ =~= error_line(es[0]));
            } else {
                assert(out@ =~= before + "; "@ + error_line(es[k as int]));
            }
        }
        k = k + 1;
    }
    assert(es.take(es.len() as int) =~= es);
    Some(out)
}

} // verus!
