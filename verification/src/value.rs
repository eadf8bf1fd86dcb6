//! Typed property values.
//!
//! A value is a tagged union of the format's four VTYPE kinds. Values are
//! constructed by coercing a raw string against a type tag; unknown tags
//! default to the string kind. A float value carries its numeric literal
//! text, validated against the format's numeric grammar: the engine never
//! computes with floats, it only checks and transports them.
use vstd::prelude::*;
use crate::error::MissionSerdeError;
use crate::text::{chars_of, chars_eq, string_from_chars};

verus! {

/// Mathematical model of a value.
pub enum ValueV {
    Bool(bool),
    Float(Seq<char>),
    Int(int),
    String(Seq<char>),
}

/// A typed property value. The float variant holds validated literal text.
#[derive(Debug, Clone, PartialEq)]
pub enum Value {
    Bool(bool),
    Float(String),
    Int(i32),
    String(String),
}

impl View for Value {
    type V = ValueV;

    open spec fn view(&self) -> ValueV {
        match self {
            Value::Bool(b) => ValueV::Bool(*b),
            Value::Float(s) => ValueV::Float(s@),
            Value::Int(i) => ValueV::Int(*i as int),
            Value::String(s) => ValueV::String(s@),
        }
    }
}

// ---------------------------------------------------------------------
// Decimal digits
// ---------------------------------------------------------------------
/// Whether a character is a decimal digit.
pub open spec fn is_digit_char(c: char) -> bool {
    48 <= c as u32 <= 57
}

/// Numeric value of a digit character.
pub open spec fn digit_of(c: char) -> int {
    c as u32 - 48
}

/// Digit character of a value in 0..10.
pub open spec fn char_of_digit(d: int) -> char {
    ((d + 48) as u8) as char
}

/// Whether every character of the sequence is a decimal digit.
pub open spec fn all_digits(s: Seq<char>) -> bool {
    forall|i: int| 0 <= i < s.len() ==> is_digit_char(#[trigger] s[i])
}

/// Value of a digit sequence read in base ten.
pub open spec fn digits_val(s: Seq<char>) -> int
    decreases s.len(),
{
    if s.len() == 0 {
        0
    } else {
        digits_val(s.drop_last()) * 10 + digit_of(s.last())
    }
}

/// A digit sequence is worth at least any of its prefixes, and at least zero.
pub proof fn lemma_digits_val_extend(s: Seq<char>, i: int)
    requires
        all_digits(s),
        0 <= i <= s.len(),
    ensures
        0 <= digits_val(s.take(i)) <= digits_val(s),
    decreases s.len() - i,
{
    if i == s.len() {
        assert(s.take(i) =~= s);
        lemma_digits_val_nonneg(s);
    } else {
        lemma_digits_val_extend(s, i + 1);
        lemma_digits_val_nonneg(s.take(i));
        assert(s.take(i + 1).drop_last() =~= s.take(i));
        assert(digits_val(s.take(i + 1)) == digits_val(s.take(i)) * 10 + digit_of(s.take(i + 1).last()));
    }
}

/// A digit sequence is worth at least zero.
pub proof fn lemma_digits_val_nonneg(s: Seq<char>)
    requires
        all_digits(s),
    ensures
        digits_val(s) >= 0,
    decreases s.len(),
{
    if s.len() > 0 {
        assert(all_digits(s.drop_last()));
        lemma_digits_val_nonneg(s.drop_last());
    }
}

// ---------------------------------------------------------------------
// Integers
// ---------------------------------------------------------------------
/// Mathematical parse of an optionally signed decimal integer.
pub open spec fn spec_parse_int(s: Seq<char>) -> Option<int> {
    if s.len() == 0 {
        None
    } else {
        let signed = s[0] == '-' || s[0] == '+';
        let ds = if signed {
            s.skip(1)
        } else {
            s
        };
        if ds.len() == 0 || !all_digits(ds) {
            None
        } else if s[0] == '-' {
            Some(-digits_val(ds))
        } else {
            Some(digits_val(ds))
        }
    }
}

/// Parse of a decimal integer that must fit a 32-bit signed machine word.
pub open spec fn spec_parse_i32(s: Seq<char>) -> Option<int> {
    match spec_parse_int(s) {
        Some(v) => if -0x8000_0000 <= v <= 0x7fff_ffff {
            Some(v)
        } else {
            None
        },
        None => None,
    }
}

/// Parses an optionally signed decimal integer into a 32-bit word,
/// rejecting out-of-range values.
pub fn parse_i32_chars(s: &Vec<char>) -> (r: Option<i32>)
    ensures
        match r {
            Some(v) => spec_parse_i32(s@) == Some(v as int),
            None => spec_parse_i32(s@) is None,
        },
{
    let n = s.len();
    if n == 0 {
        return None;
    }
    let c0 = s[0];
    let neg = c0 == '-';
    let start: usize = if c0 == '-' || c0 == '+' {
        1
    } else {
        0
    };
    let ghost ds: Seq<char> = if start == 1 {
        s@.skip(1)
    } else {
        s@
    };
    if n == start {
        return None;
    }
    let mut acc: u64 = 0;
    let mut i: usize = start;
    while i < n
        invariant
            start <= i <= n,
            n == s@.len(),
            start == 0 || start == 1,
            (start == 1) == (s@[0] == '-' || s@[0] == '+'),
            n > start,
            ds == (if start == 1 {
                s@.skip(1)
            } else {
                s@
            }),
            all_digits(ds.take(i - start)),
            acc == digits_val(ds.take(i - start)),
            acc <= 0x8000_0000,
        decreases n - i,
    {
        let c = s[i];
        let cv = c as u32;
        proof {
            assert(ds.len() == n - start);
            assert(ds[i - start] == s@[i as int]);
        }
        if cv < 48 || cv > 57 {
            proof {
                assert(!is_digit_char(ds[i - start]));
                assert(!all_digits(ds));
                assert(spec_parse_int(s@) is None);
            }
            return None;
        }
        let d: u64 = (cv - 48) as u64;
        proof {
            assert(ds.take(i - start + 1).drop_last() =~= ds.take(i - start));
            assert(ds.take(i - start + 1).last() == ds[i - start]);
            assert(is_digit_char(ds[i - start]));
            assert(all_digits(ds.take(i - start + 1)));
            assert(digits_val(ds.take(i - start + 1)) == digits_val(ds.take(i - start)) * 10
                + digit_of(ds[i - start]));
            assert(digit_of(ds[i - start]) == d);
        }
        acc = acc * 10 + d;
        i = i + 1;
        proof {
            assert(acc == digits_val(ds.take(i - start)));
        }
        if acc > 0x8000_0000 {
            proof {
                if all_digits(ds) {
                    lemma_digits_val_extend(ds, i - start);
                    assert(digits_val(ds) >= digits_val(ds.take(i - start)));
                    assert(digits_val(ds) > 0x8000_0000);
                }
                assert(spec_parse_i32(s@) is None);
            }
            return None;
        }
    }
    proof {
        assert(ds.take(n - start) =~= ds);
    }
    if neg {
        proof {
            assert(s@[0] == '-');
        }
        let v: i64 = -(acc as i64);
        Some(v as i32)
    } else {
        if acc > 0x7fff_ffff {
            return None;
        }
        proof {
            assert(s@[0] != '-');
        }
        Some(acc as i32)
    }
}

/// Text of a nonnegative value in base ten.
pub open spec fn spec_digits_text(n: int) -> Seq<char>
    decreases n,
{
    if n < 10 {
        seq![char_of_digit(n)]
    } else {
        spec_digits_text(n / 10).push(char_of_digit(n % 10))
    }
}

/// Text of a signed integer in base ten.
pub open spec fn spec_int_text(v: int) -> Seq<char> {
    if v < 0 {
        seq!['-'] + spec_digits_text(-v)
    } else {
        spec_digits_text(v)
    }
}

/// Writes a nonnegative value in base ten.
pub fn format_digits(n: u64) -> (v: Vec<char>)
    ensures
        v@ == spec_digits_text(n as int),
    decreases n,
{
    if n < 10 {
        let c = ((n as u8) + 48) as char;
        let mut v: Vec<char> = Vec::new();
        v.push(c);
        proof {
            assert(v@ =~= seq![char_of_digit(n as int)]);
        }
        v
    } else {
        let mut v = format_digits(n / 10);
        let d = n % 10;
        let c = ((d as u8) + 48) as char;
        v.push(c);
        v
    }
}

/// Writes a 32-bit signed integer in base ten.
pub fn format_i32(v: i32) -> (s: String)
    ensures
        s@ == spec_int_text(v as int),
{
    if v < 0 {
        let mag: u64 = (-(v as i64)) as u64;
        let digits = format_digits(mag);
        let mut out: Vec<char> = Vec::new();
        out.push('-');
        let mut i: usize = 0;
        let n = digits.len();
        while i < n
            invariant
                i <= n,
                n == digits@.len(),
                out@ == seq!['-'] + digits@.subrange(0, i as int),
            decreases n - i,
        {
            out.push(digits[i]);
            proof {
                assert(seq!['-'] + digits@.subrange(0, i + 1) =~= (seq!['-'] + digits@.subrange(
                    0,
                    i as int,
                )).push(digits@[i as int]));
            }
            i = i + 1;
        }
        proof {
            assert(digits@.subrange(0, n as int) =~= digits@);
        }
        string_from_chars(&out)
    } else {
        let digits = format_digits(v as u64);
        string_from_chars(&digits)
    }
}

// ---------------------------------------------------------------------
// Booleans
// ---------------------------------------------------------------------
/// ASCII-lowers one character.
pub open spec fn lower_char(c: char) -> char {
    if 65 <= c as u32 <= 90 {
        ((c as u32 + 32) as u8) as char
    } else {
        c
    }
}

/// ASCII-lowers a character sequence.
pub open spec fn to_lower(s: Seq<char>) -> Seq<char> {
    s.map_values(|c: char| lower_char(c))
}

/// Mathematical parse of a boolean: the ASCII-lowered text must read
/// `true` or `false`.
pub open spec fn spec_parse_bool(s: Seq<char>) -> Option<bool> {
    if to_lower(s) == "true"@ {
        Some(true)
    } else if to_lower(s) == "false"@ {
        Some(false)
    } else {
        None
    }
}

/// Parses a boolean, ignoring ASCII case.
pub fn parse_bool_chars(s: &Vec<char>) -> (r: Option<bool>)
    ensures
        r == spec_parse_bool(s@),
{
    let n = s.len();
    let mut low: Vec<char> = Vec::new();
    let mut i: usize = 0;
    while i < n
        invariant
            i <= n,
            n == s@.len(),
            low@ == to_lower(s@).subrange(0, i as int),
        decreases n - i,
    {
        let c = s[i];
        let cv = c as u32;
        let lc: char = if 65 <= cv && cv <= 90 {
            ((cv + 32) as u8) as char
        } else {
            c
        };
        low.push(lc);
        proof {
            assert(to_lower(s@)[i as int] == lower_char(s@[i as int]));
            assert(to_lower(s@).subrange(0, i + 1) =~= to_lower(s@).subrange(0, i as int).push(
                lower_char(s@[i as int]),
            ));
        }
        i = i + 1;
    }
    proof {
        assert(low@ =~= to_lower(s@));
        reveal_strlit("true");
        reveal_strlit("false");
    }
    let t = chars_of("true");
    let f = chars_of("false");
    if chars_eq(&low, &t) {
        Some(true)
    } else if chars_eq(&low, &f) {
        Some(false)
    } else {
        None
    }
}

/// Text of a boolean.
pub open spec fn spec_bool_text(b: bool) -> Seq<char> {
    if b {
        "true"@
    } else {
        "false"@
    }
}

// ---------------------------------------------------------------------
// Float literals
// ---------------------------------------------------------------------
/// First index at or after `i` whose character is not a decimal digit.
pub open spec fn skip_digits(s: Seq<char>, i: int) -> int
    decreases s.len() - i,
{
    if i < 0 || i >= s.len() {
        i
    } else if is_digit_char(s[i]) {
        skip_digits(s, i + 1)
    } else {
        i
    }
}

pub proof fn lemma_skip_digits_range(s: Seq<char>, i: int)
    requires
        0 <= i <= s.len(),
    ensures
        i <= skip_digits(s, i) <= s.len(),
    decreases s.len() - i,
{
    if i < s.len() && is_digit_char(s[i]) {
        lemma_skip_digits_range(s, i + 1);
    }
}

/// The format's numeric literal grammar: an optional sign, digits with at
/// most one point and at least one digit, and an optional exponent.
pub open spec fn is_float_text(s: Seq<char>) -> bool {
    let n = s.len() as int;
    if n == 0 {
        false
    } else {
        let i0: int = if s[0] == '+' || s[0] == '-' {
            1
        } else {
            0
        };
        let i1 = skip_digits(s, i0);
        let pointed = i1 < n && s[i1] == '.';
        let i2 = if pointed {
            skip_digits(s, i1 + 1)
        } else {
            i1
        };
        let digit_count = (i1 - i0) + (if pointed {
            i2 - (i1 + 1)
        } else {
            0
        });
        if digit_count <= 0 {
            false
        } else if i2 == n {
            true
        } else if s[i2] == 'e' || s[i2] == 'E' {
            let j0: int = if i2 + 1 < n && (s[i2 + 1] == '+' || s[i2 + 1] == '-') {
                i2 + 2
            } else {
                i2 + 1
            };
            let j1 = skip_digits(s, j0);
            j1 > j0 && j1 == n
        } else {
            false
        }
    }
}

/// Advances past decimal digits.
fn scan_digits(s: &Vec<char>, from: usize) -> (j: usize)
    requires
        from <= s@.len(),
    ensures
        j == skip_digits(s@, from as int),
        from <= j <= s@.len(),
{
    let n = s.len();
    let mut j = from;
    while j < n
        invariant
            from <= j <= n,
            n == s@.len(),
            skip_digits(s@, from as int) == skip_digits(s@, j as int),
        ensures
            from <= j <= n,
            skip_digits(s@, from as int) == skip_digits(s@, j as int),
            j == n || !is_digit_char(s@[j as int]),
        decreases n - j,
    {
        let cv = s[j] as u32;
        if cv < 48 || cv > 57 {
            break;
        }
        j = j + 1;
    }
    proof {
        lemma_skip_digits_range(s@, j as int);
    }
    j
}

/// Checks a character vector against the numeric literal grammar.
pub fn is_float_chars(s: &Vec<char>) -> (r: bool)
    ensures
        r == is_float_text(s@),
{
    let n = s.len();
    if n == 0 {
        return false;
    }
    let i0: usize = if s[0] == '+' || s[0] == '-' {
        1
    } else {
        0
    };
    let i1 = scan_digits(s, i0);
    let pointed = i1 < n && s[i1] == '.';
    let i2: usize = if pointed {
        scan_digits(s, i1 + 1)
    } else {
        i1
    };
    let digit_count: usize = (i1 - i0) + (if pointed {
        i2 - (i1 + 1)
    } else {
        0
    });
    if digit_count == 0 {
        return false;
    }
    if i2 == n {
        return true;
    }
    let c2 = s[i2];
    if c2 == 'e' || c2 == 'E' {
        let j0: usize = if i2 + 1 < n && (s[i2 + 1] == '+' || s[i2 + 1] == '-') {
            i2 + 2
        } else {
            i2 + 1
        };
        if j0 > n {
            return false;
        }
        let j1 = scan_digits(s, j0);
        j1 > j0 && j1 == n
    } else {
        false
    }
}

// ---------------------------------------------------------------------
// Coercion
// ---------------------------------------------------------------------
/// Mathematical coercion of a raw string against a type tag. Unknown tags
/// produce a string value; a failed numeric or boolean parse produces
/// nothing.
pub open spec fn spec_value_new(v: Seq<char>, t: Seq<char>) -> Option<ValueV> {
    if t == "VTYPE_BOOL"@ {
        match spec_parse_bool(v) {
            Some(b) => Some(ValueV::Bool(b)),
            None => None,
        }
    } else if t == "VTYPE_FLOAT"@ {
        if is_float_text(v) {
            Some(ValueV::Float(v))
        } else {
            None
        }
    } else if t == "VTYPE_INT"@ {
        match spec_parse_i32(v) {
            Some(i) => Some(ValueV::Int(i)),
            None => None,
        }
    } else {
        Some(ValueV::String(v))
    }
}

/// The type tag of a value.
pub open spec fn spec_vtype_name(v: ValueV) -> Seq<char> {
    match v {
        ValueV::Bool(_) => "VTYPE_BOOL"@,
        ValueV::Float(_) => "VTYPE_FLOAT"@,
        ValueV::Int(_) => "VTYPE_INT"@,
        ValueV::String(_) => "VTYPE_STRING"@,
    }
}

/// The serialized text of a value.
pub open spec fn spec_value_text(v: ValueV) -> Seq<char> {
    match v {
        ValueV::Bool(b) => spec_bool_text(b),
        ValueV::Float(s) => s,
        ValueV::Int(i) => spec_int_text(i),
        ValueV::String(s) => s,
    }
}

/// A value the engine can have produced: float literals pass the grammar
/// and integers fit the 32-bit word they are stored in.
pub open spec fn value_wf(v: ValueV) -> bool {
    match v {
        ValueV::Float(s) => is_float_text(s),
        ValueV::Int(i) => -0x8000_0000 <= i <= 0x7fff_ffff,
        _ => true,
    }
}

/// Every coerced value is such a value.
pub proof fn lemma_value_new_wf(s: Seq<char>, t: Seq<char>)
    requires
        spec_value_new(s, t) is Some,
    ensures
        value_wf(spec_value_new(s, t)->Some_0),
{
}

/// The decimal text of a nonnegative value reads back as that value.
pub proof fn lemma_digits_text_val(n: int)
    requires
        n >= 0,
    ensures
        spec_digits_text(n).len() > 0,
        all_digits(spec_digits_text(n)),
        digits_val(spec_digits_text(n)) == n,
    decreases n,
{
    if n < 10 {
        assert(char_of_digit(n) as u32 == n + 48);
        assert(is_digit_char(char_of_digit(n)));
        assert(spec_digits_text(n) =~= seq![char_of_digit(n)]);
        assert(spec_digits_text(n).drop_last() =~= Seq::<char>::empty());
        assert(digits_val(Seq::<char>::empty()) == 0);
        assert(digits_val(spec_digits_text(n)) == digit_of(char_of_digit(n)));
    } else {
        lemma_digits_text_val(n / 10);
        let prefix = spec_digits_text(n / 10);
        let d = n % 10;
        assert(char_of_digit(d) as u32 == d + 48);
        assert(is_digit_char(char_of_digit(d)));
        let whole = prefix.push(char_of_digit(d));
        assert(whole.drop_last() =~= prefix);
        assert(whole.last() == char_of_digit(d));
        assert(all_digits(whole)) by {
            assert(forall|i: int|
                0 <= i < whole.len() ==> whole[i] == (if i < prefix.len() {
                    prefix[i]
                } else {
                    char_of_digit(d)
                }));
        }
        assert(digits_val(whole) == digits_val(prefix) * 10 + digit_of(char_of_digit(d)));
    }
}

/// A digit character is not a sign.
pub proof fn lemma_digit_not_sign(c: char)
    requires
        is_digit_char(c),
    ensures
        c != '-' && c != '+',
{
}

/// Formatting an integer and parsing the text gives the integer back.
pub proof fn lemma_int_text_roundtrip(v: int)
    requires
        -0x8000_0000 <= v <= 0x7fff_ffff,
    ensures
        spec_parse_i32(spec_int_text(v)) == Some(v),
{
    if v < 0 {
        lemma_digits_text_val(-v);
        let ds = spec_digits_text(-v);
        let s = seq!['-'] + ds;
        assert(s[0] == '-');
        assert(s.skip(1) =~= ds);
        assert(spec_parse_int(s) == Some(-digits_val(ds)));
    } else {
        lemma_digits_text_val(v);
        let s = spec_digits_text(v);
        assert(s[0] == s[0]);
        lemma_digit_not_sign(s[0]);
        assert(spec_parse_int(s) == Some(digits_val(s)));
    }
}

/// ASCII-lowering fixes the two boolean words.
pub proof fn lemma_bool_words_fixed()
    ensures
        to_lower("true"@) == "true"@,
        to_lower("false"@) == "false"@,
        "true"@ != "false"@,
{
    reveal_strlit("true");
    reveal_strlit("false");
    assert forall|i: int| 0 <= i < "true"@.len() implies lower_char(#[trigger] "true"@[i])
        == "true"@[i] by {
        assert("true"@.len() == 4);
    }
    assert(to_lower("true"@) =~= "true"@);
    assert forall|i: int| 0 <= i < "false"@.len() implies lower_char(#[trigger] "false"@[i])
        == "false"@[i] by {
        assert("false"@.len() == 5);
    }
    assert(to_lower("false"@) =~= "false"@);
    assert("true"@.len() == 4 && "false"@.len() == 5);
}

/// Serializing a value and coercing the text against the value's own
/// type tag gives the value back.
pub proof fn lemma_value_text_roundtrip(v: ValueV)
    requires
        value_wf(v),
    ensures
        spec_value_new(spec_value_text(v), spec_vtype_name(v)) == Some(v),
{
    crate::properties::lemma_vtype_names_distinct();
    match v {
        ValueV::Bool(b) => {
            lemma_bool_words_fixed();
        },
        ValueV::Float(s) => {
        },
        ValueV::Int(i) => {
            lemma_int_text_roundtrip(i);
        },
        ValueV::String(s) => {
        },
    }
}

impl Value {
    /// Constructs and converts a value based on a vtype tag string,
    /// reporting which coercion failed.
    pub fn new(v: String, vtype: &str) -> (r: Result<Value, MissionSerdeError>)
        ensures
            match spec_value_new(v@, vtype@) {
                Some(w) => r matches Ok(x) && x@ == w,
                None => r is Err,
            },
            r matches Err(e) ==> spec_value_new(v@, vtype@) is None && (e
                == MissionSerdeError::FailedBool(v) || e == MissionSerdeError::FailedFloat(v) || e
                == MissionSerdeError::FailedInt(v)),
    {
        let cs = chars_of(v.as_str());
        proof {
            reveal_strlit("VTYPE_BOOL");
            reveal_strlit("VTYPE_FLOAT");
            reveal_strlit("VTYPE_INT");
        }
        let tb: String = String::from_str("VTYPE_BOOL");
        let tf: String = String::from_str("VTYPE_FLOAT");
        let ti: String = String::from_str("VTYPE_INT");
        let vt: String = vtype.to_owned();
        if vt == tb {
            match parse_bool_chars(&cs) {
                Some(b) => Ok(Value::Bool(b)),
                None => Err(MissionSerdeError::FailedBool(v)),
            }
        } else if vt == tf {
            if is_float_chars(&cs) {
                Ok(Value::Float(v))
            } else {
                Err(MissionSerdeError::FailedFloat(v))
            }
        } else if vt == ti {
            match parse_i32_chars(&cs) {
                Some(i) => Ok(Value::Int(i)),
                None => Err(MissionSerdeError::FailedInt(v)),
            }
        } else {
            Ok(Value::String(v))
        }
    }

    /// Returns the vtype tag string for this value's type.
    pub fn vtype(&self) -> (r: &'static str)
        ensures
            r@ == spec_vtype_name(self@),
    {
        match self {
            Value::Bool(_) => "VTYPE_BOOL",
            Value::Float(_) => "VTYPE_FLOAT",
            Value::Int(_) => "VTYPE_INT",
            Value::String(_) => "VTYPE_STRING",
        }
    }

    /// Returns the serialized text of this value.
    pub fn to_text(&self) -> (r: String)
        ensures
            r@ == spec_value_text(self@),
    {
        match self {
            Value::Bool(b) => {
                if *b {
                    String::from_str("true")
                } else {
                    String::from_str("false")
                }
            },
            Value::Float(s) => s.clone(),
            Value::Int(i) => format_i32(*i),
            Value::String(s) => s.clone(),
        }
    }

    /// Structurally copies this value.
    pub fn duplicate(&self) -> (r: Value)
        ensures
            r@ == self@,
    {
        match self {
            Value::Bool(b) => Value::Bool(*b),
            Value::Float(s) => Value::Float(s.clone()),
            Value::Int(i) => Value::Int(*i),
            Value::String(s) => Value::String(s.clone()),
        }
    }
}

} // verus!
