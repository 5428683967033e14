//! The JSON envelope that carries one event: its target, name, level and
//! fields, pretty-printed with two spaces of indentation.
use vstd::prelude::*;
use vstd::string::*;
use crate::fields::{FieldData, FieldMap, FieldValue};

verus! {

/// The severity of an event, from least to most severe.
#[derive(Clone, Copy, PartialEq, Eq, Debug, Structural)]
pub enum Level {
    Trace,
    Debug,
    Info,
    Warn,
    Error,
}

/// The textual name of a level.
pub open spec fn level_name(l: Level) -> Seq<char> {
    match l {
        Level::Trace => "TRACE"@,
        Level::Debug => "DEBUG"@,
        Level::Info => "INFO"@,
        Level::Warn => "WARN"@,
        Level::Error => "ERROR"@,
    }
}

impl Level {
    /// The textual name of the level, such as `INFO`.
    pub fn as_str(&self) -> (r: &'static str)
        ensures
            r@ == level_name(*self),
    {
        match self {
            Level::Trace => "TRACE",
            Level::Debug => "DEBUG",
            Level::Info => "INFO",
            Level::Warn => "WARN",
            Level::Error => "ERROR",
        }
    }
}

/// The JSON string literal of `s`: quoted, with the characters that JSON
/// reserves escaped.
pub uninterp spec fn json_string_text(s: Seq<char>) -> Seq<char>;

/// Relies on serde_json's `Display` for `Value::String`: it writes the JSON
/// string literal of the text, which depends on the text alone.
#[verifier::external_body]
fn json_string(s: &str) -> (r: String)
    ensures
        r@ == json_string_text(s@),
{
    serde_json::Value::String(s.to_owned()).to_string()
}

pub open spec fn digit_char(d: nat) -> char {
    if d == 0 {
        '0'
    } else if d == 1 {
        '1'
    } else if d == 2 {
        '2'
    } else if d == 3 {
        '3'
    } else if d == 4 {
        '4'
    } else if d == 5 {
        '5'
    } else if d == 6 {
        '6'
    } else if d == 7 {
        '7'
    } else if d == 8 {
        '8'
    } else {
        '9'
    }
}

/// The decimal digits of `n`, without leading zeros.
pub open spec fn decimal_text(n: nat) -> Seq<char>
    decreases n,
{
    if n < 10 {
        seq![digit_char(n)]
    } else {
        decimal_text(n / 10).push(digit_char(n % 10))
    }
}

/// The decimal text of a signed integer.
pub open spec fn signed_text(n: int) -> Seq<char> {
    if n < 0 {
        seq!['-'] + decimal_text((-n) as nat)
    } else {
        decimal_text(n as nat)
    }
}

/// The JSON text of a field's value.
pub open spec fn value_text(v: FieldData) -> Seq<char> {
    match v {
        FieldData::Float(t) => t,
        FieldData::Int(n) => signed_text(n as int),
        FieldData::UInt(n) => decimal_text(n as nat),
        FieldData::Bool(b) => if b {
            "true"@
        } else {
            "false"@
        },
        FieldData::Str(s) => json_string_text(s),
        FieldData::ErrorText(s) => json_string_text(s),
        FieldData::DebugText(s) => json_string_text(s),
    }
}

/// One member of the `fields` object, as its JSON name and JSON value.
pub open spec fn member_of(e: (Seq<char>, FieldData)) -> (Seq<char>, Seq<char>) {
    (json_string_text(e.0), value_text(e.1))
}

pub open spec fn member_line(m: (Seq<char>, Seq<char>)) -> Seq<char> {
    "    "@ + m.0 + ": "@ + m.1
}

/// The members of the `fields` object, one to a line, separated by commas.
pub open spec fn member_lines(ms: Seq<(Seq<char>, Seq<char>)>) -> Seq<char>
    decreases ms.len(),
{
    if ms.len() == 0 {
        Seq::empty()
    } else if ms.len() == 1 {
        member_line(ms[0])
    } else {
        member_lines(ms.drop_last()) + ",\n"@ + member_line(ms.last())
    }
}

/// The `fields` object: `{}` when it is empty.
pub open spec fn object_text(ms: Seq<(Seq<char>, Seq<char>)>) -> Seq<char> {
    if ms.len() == 0 {
        "{}"@
    } else {
        "{\n"@ + member_lines(ms) + "\n  }"@
    }
}

/// The envelope around a target and a name already written as JSON strings,
/// a level, and the members of the `fields` object.
pub open spec fn envelope_layout(
    target: Seq<char>,
    name: Seq<char>,
    level: Level,
    ms: Seq<(Seq<char>, Seq<char>)>,
) -> Seq<char> {
    "{\n  \"target\": "@ + target + ",\n  \"name\": "@ + name + ",\n  \"level\": \""@
        + level_name(level) + "\",\n  \"fields\": "@ + object_text(ms) + "\n}"@
}

/// The envelope of an event.
pub open spec fn envelope_text(
    target: Seq<char>,
    name: Seq<char>,
    level: Level,
    fields: Seq<(Seq<char>, FieldData)>,
) -> Seq<char> {
    envelope_layout(
        json_string_text(target),
        json_string_text(name),
        level,
        fields.map_values(|e: (Seq<char>, FieldData)| member_of(e)),
    )
}

fn digit_str(d: u64) -> (r: &'static str)
    requires
        d < 10,
    ensures
        r@ == seq![digit_char(d as nat)],
{
    proof {
        reveal_strlit("0");
        reveal_strlit("1");
        reveal_strlit("2");
        reveal_strlit("3");
        reveal_strlit("4");
        reveal_strlit("5");
        reveal_strlit("6");
        reveal_strlit("7");
        reveal_strlit("8");
        reveal_strlit("9");
    }
    let r = if d == 0 {
        "0"
    } else if d == 1 {
        "1"
    } else if d == 2 {
        "2"
    } else if d == 3 {
        "3"
    } else if d == 4 {
        "4"
    } else if d == 5 {
        "5"
    } else if d == 6 {
        "6"
    } else if d == 7 {
        "7"
    } else if d == 8 {
        "8"
    } else {
        "9"
    };
    assert(r@ =~= seq![digit_char(d as nat)]);
    r
}

/// Appends the decimal digits of `n` to `out`.
pub fn push_decimal(out: &mut String, n: u64)
    ensures
        final(out)@ == old(out)@ + decimal_text(n as nat),
    decreases n,
{
    if n >= 10 {
        push_decimal(out, n / 10);
    }
    out.append(digit_str(n % 10));
    assert(final(out)@ =~= old(out)@ + decimal_text(n as nat));
}

/// Appends the decimal text of the signed integer `n` to `out`.
pub fn push_signed(out: &mut String, n: i64)
    ensures
        final(out)@ == old(out)@ + signed_text(n as int),
{
    if n < 0 {
        out.append("-");
        proof {
            reveal_strlit("-");
        }
        let m: u64 = (-(n as i128)) as u64;
        push_decimal(out, m);
        assert(final(out)@ =~= old(out)@ + signed_text(n as int));
    } else {
        push_decimal(out, n as u64);
    }
}

/// The JSON text of a field's value.
pub fn value_json(v: &FieldValue) -> (r: String)
    ensures
        r@ == value_text(v@),
{
    match v {
        FieldValue::Float(t) => t.clone(),
        FieldValue::Int(n) => {
            let mut out = String::new();
            push_signed(&mut out, *n);
            assert(out@ =~= value_text(v@));
            out
        },
        FieldValue::UInt(n) => {
            let mut out = String::new();
            push_decimal(&mut out, *n);
            assert(out@ =~= value_text(v@));
            out
        },
        FieldValue::Bool(b) => {
            if *b {
                "true".to_owned()
            } else {
                "false".to_owned()
            }
        },
        FieldValue::Str(s) => json_string(s.as_str()),
        FieldValue::ErrorText(s) => json_string(s.as_str()),
        FieldValue::DebugText(s) => json_string(s.as_str()),
    }
}

pub open spec fn members_view(ms: Seq<(String, String)>) -> Seq<(Seq<char>, Seq<char>)> {
    ms.map_values(|m: (String, String)| (m.0@, m.1@))
}

/// Lays out the envelope around a target and a name already written as JSON
/// strings, a level, and the members of the `fields` object, each a JSON name
/// and a JSON value.
pub fn assemble_envelope(
    target_json: &str,
    name_json: &str,
    level: Level,
    members: &Vec<(String, String)>,
) -> (r: String)
    ensures
        r@ == envelope_layout(target_json@, name_json@, level, members_view(members@)),
{
    let ghost ms = members_view(members@);
    let n = members.len();
    let mut body = String::new();
    let mut i: usize = 0;
    while i < n
        invariant
            n == members@.len(),
            ms == members_view(members@),
            i <= n,
            body@ == member_lines(ms.subrange(0, i as int)),
        decreases n - i,
    {
        let ghost before = body@;
        if i > 0 {
            body.append(",\n");
        }
        body.append("    ");
        body.append(members[i].0.as_str());
        body.append(": ");
        body.append(members[i].1.as_str());
        let ghost sub = ms.subrange(0, i + 1);
        assert(sub.drop_last() =~= ms.subrange(0, i as int));
        assert(sub.last() == ms[i as int]);
        if i == 0 {
            assert(before =~= Seq::<char>::empty());
        }
        assert(body@ =~= member_lines(sub));
        i = i + 1;
    }
    assert(ms.subrange(0, n as int) =~= ms);
    let mut out = String::new();
    out.append("{\n  \"target\": ");
    out.append(target_json);
    out.append(",\n  \"name\": ");
    out.append(name_json);
    out.append(",\n  \"level\": \"");
    out.append(level.as_str());
    out.append("\",\n  \"fields\": ");
    if n == 0 {
        out.append("{}");
    } else {
        out.append("{\n");
        out.append(body.as_str());
        out.append("\n  }");
    }
    out.append("\n}");
    assert(out@ =~= envelope_layout(target_json@, name_json@, level, ms));
    out
}

/// Renders the envelope of an event whose fields are `fields`.
pub fn render_envelope(target: &str, name: &str, level: Level, fields: &FieldMap) -> (r: String)
    ensures
        r@ == envelope_text(target@, name@, level, fields@),
{
    let n = fields.len();
    let ghost fs = fields@.map_values(|e: (Seq<char>, FieldData)| member_of(e));
    let mut members: Vec<(String, String)> = Vec::new();
    let mut i: usize = 0;
    while i < n
        invariant
            n == fields@.len(),
            fs == fields@.map_values(|e: (Seq<char>, FieldData)| member_of(e)),
            i <= n,
            members_view(members@) == fs.subrange(0, i as int),
        decreases n - i,
    {
        let (k, v) = fields.entry(i);
        let pair = (json_string(k.as_str()), value_json(v));
        assert(fs[i as int] == member_of(fields@[i as int]));
        assert((pair.0@, pair.1@) == fs[i as int]);
        let ghost prev = members@;
        members.push(pair);
        assert(members@ == prev.push(pair));
        assert(members_view(members@) =~= members_view(prev).push(fs[i as int]));
        assert(fs.subrange(0, i + 1) =~= fs.subrange(0, i as int).push(fs[i as int]));
        assert(members_view(members@) =~= fs.subrange(0, i + 1));
        i = i + 1;
    }
    assert(fs.subrange(0, n as int) =~= fs);
    let t = json_string(target);
    let m = json_string(name);
    assemble_envelope(t.as_str(), m.as_str(), level, &members)
}

} // verus!
