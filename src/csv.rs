//! Escaping of CSV fields as RFC 4180 asks.
use vstd::prelude::*;
use vstd::string::*;

verus! {

/// A character that forces a CSV field into quotes.
pub open spec fn is_csv_special(c: char) -> bool {
    c == ',' || c == '"' || c == '\n' || c == '\r'
}

/// Whether `s` holds a comma, a quote, a line feed or a carriage return.
pub open spec fn needs_quoting(s: Seq<char>) -> bool {
    exists|i: int| 0 <= i < s.len() && #[trigger] is_csv_special(s[i])
}

/// `s` with each `"` doubled.
pub open spec fn double_quotes(s: Seq<char>) -> Seq<char>
    decreases s.len(),
{
    if s.len() == 0 {
        Seq::empty()
    } else {
        double_quotes(s.drop_last()) + if s.last() == '"' {
            seq!['"', '"']
        } else {
            seq![s.last()]
        }
    }
}

/// The CSV form of the field `s`: quoted, with inner quotes doubled, when it
/// holds a special character; else `s` itself.
pub open spec fn csv_field(s: Seq<char>) -> Seq<char> {
    if needs_quoting(s) {
        seq!['"'] + double_quotes(s) + seq!['"']
    } else {
        s
    }
}

/// Escapes a field for CSV output according to RFC 4180: a field that holds
/// a comma, a quote or a line break is wrapped in quotes, with each inner
/// quote doubled; any other field is returned as it is.
pub fn escape_csv_field(field: &str) -> (r: String)
    ensures
        r@ == csv_field(field@),
{
    let n = field.unicode_len();
    let mut special = false;
    let mut i: usize = 0;
    while i < n
        invariant
            i <= n,
            n == field@.len(),
            special <==> exists|j: int| 0 <= j < i && #[trigger] is_csv_special(field@[j]),
        decreases n - i,
    {
        let c = field.get_char(i);
        if c == ',' || c == '"' || c == '\n' || c == '\r' {
            assert(is_csv_special(field@[i as int]));
            special = true;
        }
        i = i + 1;
    }
    if !special {
        return String::from_str(field);
    }
    proof {
        reveal_strlit("\"");
    }
    let mut out = String::from_str("\"");
    let mut i: usize = 0;
    assert(field@.subrange(0, 0) =~= Seq::<char>::empty());
    assert(out@ =~= seq!['"'] + double_quotes(field@.subrange(0, 0)));
    while i < n
        invariant
            i <= n,
            n == field@.len(),
            out@ == seq!['"'] + double_quotes(field@.subrange(0, i as int)),
        decreases n - i,
    {
        let c = field.get_char(i);
        let ghost before = out@;
        if c == '"' {
            out.append("\"");
            out.append("\"");
        } else {
            out.append(field.substring_char(i, i + 1));
        }
        proof {
            reveal_strlit("\"");
            let p = field@.subrange(0, i + 1);
            assert(p.drop_last() =~= field@.subrange(0, i as int));
            assert(p.last() == c);
            if c == '"' {
                assert(out@ =~= before + seq!['"', '"']);
            } else {
                assert(field@.subrange(i as int, i + 1) =~= seq![c]);
                assert(out@ =~= before + seq![c]);
            }
            assert(out@ =~= seq!['"'] + double_quotes(p));
        }
        i = i + 1;
    }
    assert(field@.subrange(0, n as int) =~= field@);
    out.append("\"");
    assert(out@ =~= seq!['"'] + double_quotes(field@) + seq!['"']);
    out
}

} // verus!
