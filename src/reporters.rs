use vstd::prelude::*;
use crate::diagnostics::{Diagnostic, Level, Message, Span};
use crate::text::{chars_of, string_from_chars};

verus! {

/// How surviving diagnostics are written out.
#[derive(Clone, Copy, Debug, PartialEq, Eq, Hash, Structural)]
pub enum OutputKind {
    /// The original record, verbatim.
    Json,
    /// The message's human-readable text.
    Rendered,
    /// One CI annotation line per message with a primary span.
    GitHub,
}

/// The escape of one character of an annotation message.
pub open spec fn escape_char(c: char) -> Seq<char> {
    if c == '%' {
        seq!['%', '2', '5']
    } else if c == '\r' {
        seq!['%', '0', 'D']
    } else if c == '\n' {
        seq!['%', '0', 'A']
    } else {
        seq![c]
    }
}

/// `s` with `%`, carriage return and newline written `%25`, `%0D`, `%0A`.
pub open spec fn escape_spec(s: Seq<char>) -> Seq<char>
    decreases s.len(),
{
    if s.len() == 0 {
        Seq::empty()
    } else {
        escape_spec(s.drop_last()) + escape_char(s.last())
    }
}

/// Escape a message so that it fits on one annotation line.
pub fn escape_github_message(message: &str) -> (r: String)
    ensures
        r@ == escape_spec(message@),
{
    let cs = chars_of(message);
    let mut out: Vec<char> = Vec::new();
    let mut i: usize = 0;
    while i < cs.len()
        invariant
            i <= cs@.len(),
            cs@ == message@,
            out@ == escape_spec(cs@.take(i as int)),
        decreases cs@.len() - i,
    {
        let c = cs[i];
        assert(cs@.take(i + 1).drop_last() =~= cs@.take(i as int));
        if c == '%' {
            out.push('%');
            out.push('2');
            out.push('5');
        } else if c == '\r' {
            out.push('%');
            out.push('0');
            out.push('D');
        } else if c == '\n' {
            out.push('%');
            out.push('0');
            out.push('A');
        } else {
            out.push(c);
        }
        assert(out@ =~= escape_spec(cs@.take(i + 1)));
        i += 1;
    }
    assert(cs@.take(cs@.len() as int) =~= cs@);
    string_from_chars(out.as_slice())
}

/// The annotation kind of a level.
pub open spec fn kind_spec(level: Level) -> Seq<char> {
    match level {
        Level::Help | Level::Note => "debug"@,
        Level::Warning => "warning"@,
        Level::Error => "error"@,
    }
}

/// The annotation kind of a level: `debug` for help and notes, else the
/// level's own name.
pub fn annotation_kind(level: Level) -> (r: &'static str)
    ensures
        r@ == kind_spec(level),
{
    match level {
        Level::Help => "debug",
        Level::Note => "debug",
        Level::Warning => "warning",
        Level::Error => "error",
    }
}

/// The decimal digits of `n`.
pub open spec fn decimal_text(n: nat) -> Seq<char>
    decreases n,
{
    if n < 10 {
        seq![digit_char(n)]
    } else {
        decimal_text(n / 10).push(digit_char(n % 10))
    }
}

pub open spec fn digit_char(d: nat) -> char {
    ('0' as u32 + d) as char
}

fn digit(d: usize) -> (r: char)
    requires
        d < 10,
    ensures
        r == digit_char(d as nat),
{
    if d == 0 { '0' }
    else if d == 1 { '1' }
    else if d == 2 { '2' }
    else if d == 3 { '3' }
    else if d == 4 { '4' }
    else if d == 5 { '5' }
    else if d == 6 { '6' }
    else if d == 7 { '7' }
    else if d == 8 { '8' }
    else { '9' }
}

/// The decimal digits of `n`.
fn decimal_string(n: usize) -> (r: String)
    ensures
        r@ == decimal_text(n as nat),
    decreases n,
{
    let d = digit(n % 10);
    if n < 10 {
        let out = string_from_chars(&[d]);
        proof {
            assert(out@ =~= decimal_text(n as nat));
        }
        out
    } else {
        let mut out = decimal_string(n / 10);
        let last = string_from_chars(&[d]);
        out.append(last.as_str());
        proof {
            assert(out@ =~= decimal_text(n as nat));
        }
        out
    }
}

/// The annotation line of message `m` located at span `sp`:
/// `::<kind> file=<name>,line=<line>,col=<col>::<escaped message>`.
pub open spec fn annotation_spec(m: Message, sp: Span) -> Seq<char> {
    "::"@ + kind_spec(m.level) + " file="@ + sp.file_name@ + ",line="@ + decimal_text(
        sp.line_start as nat,
    ) + ",col="@ + decimal_text(sp.column_start as nat) + "::"@ + escape_spec(m.rendered@)
}

/// `i` is the index of the first primary span of `spans`.
pub open spec fn is_first_primary(spans: Seq<Span>, i: int) -> bool {
    0 <= i < spans.len() && spans[i].is_primary && forall|j: int|
        0 <= j < i ==> !(#[trigger] spans[j]).is_primary
}

/// The line that reports a diagnostic in the given output format, if it has
/// one: the record `json_line` itself, the rendered text, or the annotation
/// at the first primary span.
pub fn render_diagnostic(json_line: &str, diagnostic: &Diagnostic, output: OutputKind) -> (r: Option<String>)
    ensures
        output == OutputKind::Json ==> (r matches Some(s) && s@ == json_line@),
        output == OutputKind::Rendered ==> match diagnostic.message {
            None => r is None,
            Some(m) => r matches Some(s) && s@ == m.rendered@,
        },
        output == OutputKind::GitHub ==> match diagnostic.message {
            None => r is None,
            Some(m) => ((forall|i: int| 0 <= i < m.spans@.len() ==> !(#[trigger] m.spans@[i]).is_primary) ==> r is None)
                && forall|i: int| #[trigger] is_first_primary(m.spans@, i) ==> (r matches Some(s) && s@ == annotation_spec(m, m.spans@[i])),
        },
{
    match output {
        OutputKind::Json => Some(json_line.to_owned()),
        OutputKind::Rendered => match diagnostic.message.as_ref() {
            Some(m) => Some(m.rendered.clone()),
            None => None,
        },
        OutputKind::GitHub => match diagnostic.message.as_ref() {
            Some(m) => match m.primary_span() {
                Some(sp) => {
                    let mut out = "::".to_owned();
                    out.append(annotation_kind(m.level));
                    out.append(" file=");
                    out.append(sp.file_name.as_str());
                    out.append(",line=");
                    out.append(decimal_string(sp.line_start).as_str());
                    out.append(",col=");
                    out.append(decimal_string(sp.column_start).as_str());
                    out.append("::");
                    out.append(escape_github_message(m.rendered.as_str()).as_str());
                    proof {
                        let i = choose|i: int|
                            0 <= i < m.spans@.len() && m.spans@[i] == *sp && sp.is_primary && forall|
                                j: int,
                            | 0 <= j < i ==> !(#[trigger] m.spans@[j]).is_primary;
                        assert forall|k: int| #[trigger] is_first_primary(m.spans@, k) implies k == i by {
                            if k < i {
                                assert(!m.spans@[k].is_primary);
                            } else if k > i {
                                assert(!m.spans@[i].is_primary);
                            }
                        }
                        assert(out@ =~= annotation_spec(*m, *sp));
                    }
                    Some(out)
                },
                None => None,
            },
            None => None,
        },
    }
}

} // verus!
