//! SQLite helpers: column type affinity of a declared type, and identifier
//! quoting for generated SQL.

use vstd::prelude::*;

use crate::text::{chars_of, contains, count_char, has_infix, has_prefix, string_of, trim, trim_chars};
use crate::xml::{replace_all, replace_chars};

verus! {

/// Upper-case form of a text (`str::to_uppercase`).
pub uninterp spec fn uppercase(s: Seq<char>) -> Seq<char>;

/// `str::to_uppercase`; the contract names the result.
#[verifier::external_body]
fn to_uppercase(s: &str) -> (r: String)
    ensures
        r@ == uppercase(s@),
{
    s.to_uppercase()
}

/// The affinity SQLite gives a declared column type: an empty type is `BLOB`;
/// otherwise, on the upper-cased type, `INT` gives `INTEGER`; `CHAR`, `CLOB` or
/// `TEXT` give `TEXT`; `BLOB` gives `BLOB`; `REAL`, `FLOA` or `DOUB` give `REAL`;
/// anything else `NUMERIC`.
pub open spec fn spec_affinity(declared: Seq<char>) -> Seq<char> {
    let t = trim(declared);
    let u = uppercase(t);
    if t.len() == 0 {
        "BLOB"@
    } else if has_infix(u, "INT"@) {
        "INTEGER"@
    } else if has_infix(u, "CHAR"@) || has_infix(u, "CLOB"@) || has_infix(u, "TEXT"@) {
        "TEXT"@
    } else if has_infix(u, "BLOB"@) {
        "BLOB"@
    } else if has_infix(u, "REAL"@) || has_infix(u, "FLOA"@) || has_infix(u, "DOUB"@) {
        "REAL"@
    } else {
        "NUMERIC"@
    }
}

/// Canonical affinity name of a declared column type (`None` where the column
/// declares none).
pub fn canonical_sqlite_declared_type(declared: Option<&String>) -> (r: Option<String>)
    ensures
        match declared {
            None => r is None,
            Some(t) => r matches Some(a) && a@ == spec_affinity(t@),
        },
{
    let raw = match declared {
        Some(t) => t,
        None => return None,
    };
    let t = trim_chars(chars_of(raw.as_str()).as_slice());
    if t.len() == 0 {
        return Some("BLOB".to_owned());
    }
    let ts = string_of(t.as_slice());
    let u = chars_of(to_uppercase(ts.as_str()).as_str());
    let u = u.as_slice();
    if contains(u, chars_of("INT").as_slice()) {
        Some("INTEGER".to_owned())
    } else if contains(u, chars_of("CHAR").as_slice()) || contains(u, chars_of("CLOB").as_slice())
        || contains(u, chars_of("TEXT").as_slice()) {
        Some("TEXT".to_owned())
    } else if contains(u, chars_of("BLOB").as_slice()) {
        Some("BLOB".to_owned())
    } else if contains(u, chars_of("REAL").as_slice()) || contains(u, chars_of("FLOA").as_slice())
        || contains(u, chars_of("DOUB").as_slice()) {
        Some("REAL".to_owned())
    } else {
        Some("NUMERIC".to_owned())
    }
}

/// An identifier in double quotes, with each double quote inside doubled.
pub open spec fn spec_quoted_identifier(ident: Seq<char>) -> Seq<char> {
    "\""@ + replace_all(ident, "\""@, "\"\""@) + "\""@
}

/// Quotes an SQL identifier (table, column or index name).
pub fn quote_sql_identifier(ident: &str) -> (r: String)
    ensures
        r@ == spec_quoted_identifier(ident@),
{
    proof {
        reveal_strlit("\"");
    }
    let q = chars_of("\"");
    let inner = replace_chars(chars_of(ident).as_slice(), q.as_slice(), chars_of("\"\"").as_slice());
    let mut out: Vec<char> = Vec::new();
    out.push('"');
    let mut i: usize = 0;
    while i < inner.len()
        invariant
            i <= inner.len(),
            out@ == seq!['"'] + inner@.subrange(0, i as int),
        decreases inner.len() - i,
    {
        out.push(inner[i]);
        i = i + 1;
        assert(out@ =~= seq!['"'] + inner@.subrange(0, i as int));
    }
    out.push('"');
    assert(inner@.subrange(0, inner@.len() as int) =~= inner@);
    assert(out@ =~= "\""@ + inner@ + "\""@);
    string_of(out.as_slice())
}

// ---------------------------------------------------------------------------
// Laws
// ---------------------------------------------------------------------------

/// An identifier read back from its quoted form: the outer quotes dropped and
/// each doubled quote made single.
pub open spec fn spec_unquoted_identifier(q: Seq<char>) -> Seq<char> {
    replace_all(q.subrange(1, q.len() - 1), "\"\""@, "\""@)
}

proof fn lemma_undouble(s: Seq<char>)
    ensures
        replace_all(replace_all(s, "\""@, "\"\""@), "\"\""@, "\""@) == s,
    decreases s.len(),
{
    reveal_strlit("\"");
    reveal_strlit("\"\"");
    if s.len() > 0 {
        let rest = s.skip(1);
        lemma_undouble(rest);
        let once = replace_all(rest, "\""@, "\"\""@);
        if s[0] == '"' {
            assert(has_prefix(s, "\""@)) by {
                assert(s.subrange(0, 1) =~= "\""@);
            }
            let q = "\"\""@ + once;
            assert(has_prefix(q, "\"\""@)) by {
                assert(q.subrange(0, 2) =~= "\"\""@);
            }
            assert(q.skip(2) =~= once);
            assert(s =~= "\""@ + rest);
        } else {
            assert(!has_prefix(s, "\""@)) by {
                if has_prefix(s, "\""@) {
                    assert(s.subrange(0, 1)[0] == s[0]);
                }
            }
            let q = seq![s[0]] + once;
            assert(!has_prefix(q, "\"\""@)) by {
                if has_prefix(q, "\"\""@) {
                    assert(q.subrange(0, 2)[0] == q[0]);
                }
            }
            assert(q.skip(1) =~= once);
            assert(seq![s[0]] + rest =~= s);
        }
    }
}

/// Law: reading a quoted identifier back gives the identifier.
pub proof fn law_quoting_round_trip(ident: Seq<char>)
    ensures
        spec_unquoted_identifier(spec_quoted_identifier(ident)) == ident,
{
    reveal_strlit("\"");
    let inner = replace_all(ident, "\""@, "\"\""@);
    let q = spec_quoted_identifier(ident);
    assert(q.subrange(1, q.len() - 1) =~= inner);
    lemma_undouble(ident);
}

/// `s` with each double quote written twice and every other character kept.
pub open spec fn doubled_quotes(s: Seq<char>) -> Seq<char>
    decreases s.len(),
{
    if s.len() == 0 {
        s
    } else if s[0] == '"' {
        seq!['"', '"'] + doubled_quotes(s.skip(1))
    } else {
        seq![s[0]] + doubled_quotes(s.skip(1))
    }
}

proof fn lemma_count_front(s: Seq<char>, c: char)
    requires
        s.len() > 0,
    ensures
        count_char(s, c) == (if s[0] == c { 1nat } else { 0nat }) + count_char(s.skip(1), c),
    decreases s.len(),
{
    if s.len() > 1 {
        lemma_count_front(s.drop_last(), c);
        assert(s.drop_last().skip(1) =~= s.skip(1).drop_last());
    } else {
        assert(s.drop_last() =~= Seq::<char>::empty());
        assert(s.skip(1) =~= Seq::<char>::empty());
    }
}

proof fn lemma_doubled(s: Seq<char>)
    ensures
        replace_all(s, "\""@, "\"\""@) == doubled_quotes(s),
        doubled_quotes(s).len() == s.len() + count_char(s, '"'),
    decreases s.len(),
{
    reveal_strlit("\"");
    reveal_strlit("\"\"");
    if s.len() > 0 {
        lemma_doubled(s.skip(1));
        lemma_count_front(s, '"');
        if s[0] == '"' {
            assert(has_prefix(s, "\""@)) by {
                assert(s.subrange(0, 1) =~= "\""@);
            }
            assert("\"\""@ =~= seq!['"', '"']);
        } else {
            assert(!has_prefix(s, "\""@)) by {
                if has_prefix(s, "\""@) {
                    assert(s.subrange(0, 1)[0] == s[0]);
                }
            }
        }
    }
}

/// Law: quoting wraps the identifier in double quotes and writes each double
/// quote inside it twice, keeping every other character; the quoted form is
/// longer by two plus the number of double quotes inside.
pub proof fn law_quoting_doubles_quotes(ident: Seq<char>)
    ensures
        spec_quoted_identifier(ident) == seq!['"'] + doubled_quotes(ident) + seq!['"'],
        spec_quoted_identifier(ident).len() == ident.len() + count_char(ident, '"') + 2,
{
    reveal_strlit("\"");
    lemma_doubled(ident);
    assert("\""@ =~= seq!['"']);
}

/// Law: the SQLite affinity rules, applied in order to the upper-cased,
/// trimmed declared type: no type is `BLOB`; containing `INT` is `INTEGER`;
/// otherwise containing `CHAR`, `CLOB` or `TEXT` is `TEXT`; otherwise `BLOB`
/// gives `BLOB`; otherwise `REAL`, `FLOA` or `DOUB` give `REAL`; anything else
/// is `NUMERIC`. In particular a type containing `TEXT` and not `INT` is `TEXT`.
pub proof fn law_affinity_rules(declared: Seq<char>)
    ensures
        ({
            let t = trim(declared);
            let u = uppercase(t);
            let text_like = has_infix(u, "CHAR"@) || has_infix(u, "CLOB"@) || has_infix(u, "TEXT"@);
            let real_like = has_infix(u, "REAL"@) || has_infix(u, "FLOA"@) || has_infix(u, "DOUB"@);
            &&& t.len() == 0 ==> spec_affinity(declared) == "BLOB"@
            &&& t.len() > 0 && has_infix(u, "INT"@) ==> spec_affinity(declared) == "INTEGER"@
            &&& t.len() > 0 && !has_infix(u, "INT"@) && has_infix(u, "TEXT"@) ==> spec_affinity(declared) == "TEXT"@
            &&& t.len() > 0 && !has_infix(u, "INT"@) && text_like ==> spec_affinity(declared) == "TEXT"@
            &&& t.len() > 0 && !has_infix(u, "INT"@) && !text_like && has_infix(u, "BLOB"@)
                ==> spec_affinity(declared) == "BLOB"@
            &&& t.len() > 0 && !has_infix(u, "INT"@) && !text_like && !has_infix(u, "BLOB"@) && real_like
                ==> spec_affinity(declared) == "REAL"@
            &&& t.len() > 0 && !has_infix(u, "INT"@) && !text_like && !has_infix(u, "BLOB"@) && !real_like
                ==> spec_affinity(declared) == "NUMERIC"@
        }),
{
}

} // verus!
