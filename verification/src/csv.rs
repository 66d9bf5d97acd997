//! CSV encoding of exported rows.
//!
//! A field has its double quotes doubled; if the escaped text contains a
//! comma, the whole field is wrapped in double quotes. A line is the
//! comma-separated join of its fields.

use crate::paths::chars_of;
use crate::paths::string_from_chars;
use vstd::prelude::*;

verus! {

/// Every double quote doubled.
pub open spec fn escape_quotes(s: Seq<char>) -> Seq<char>
    decreases s.len(),
{
    if s.len() == 0 {
        Seq::empty()
    } else {
        escape_quotes(s.drop_last()) + (if s.last() == '"' {
            seq!['"', '"']
        } else {
            seq![s.last()]
        })
    }
}

/// A CSV field: quotes doubled, and the field wrapped in quotes when the
/// escaped text contains a comma.
pub open spec fn csv_field_of(s: Seq<char>) -> Seq<char> {
    let e = escape_quotes(s);
    if e.contains(',') {
        seq!['"'] + e + seq!['"']
    } else {
        e
    }
}

/// A CSV line: the fields joined with commas.
pub open spec fn csv_join(fields: Seq<Seq<char>>) -> Seq<char>
    decreases fields.len(),
{
    if fields.len() == 0 {
        Seq::empty()
    } else if fields.len() == 1 {
        fields[0]
    } else {
        csv_join(fields.drop_last()) + seq![','] + fields.last()
    }
}

/// Encode one CSV field.
pub fn csv_field(s: &str) -> (r: String)
    ensures
        r@ == csv_field_of(s@),
{
    let v = chars_of(s);
    let mut esc: Vec<char> = Vec::new();
    let mut has_comma = false;
    let mut i: usize = 0;
    while i < v.len()
        invariant
            v@ == s@,
            i <= v@.len(),
            esc@ == escape_quotes(s@.take(i as int)),
            has_comma == esc@.contains(','),
        decreases v@.len() - i,
    {
        let ghost before = esc@;
        let c = v[i];
        if c == '"' {
            esc.push('"');
            esc.push('"');
        } else {
            esc.push(c);
            if c == ',' {
                has_comma = true;
            }
        }
        i = i + 1;
        proof {
            assert(s@.take(i as int).drop_last() =~= s@.take(i as int - 1));
            assert(s@.take(i as int).last() == s@[i as int - 1]);
            assert(esc@ =~= escape_quotes(s@.take(i as int)));
            if c == ',' {
                assert(esc@.last() == ',');
                assert(esc@.contains(','));
            } else {
                if before.contains(',') {
                    let k = choose|k: int| 0 <= k < before.len() && before[k] == ',';
                    assert(esc@[k] == ',');
                    assert(esc@.contains(','));
                }
                if esc@.contains(',') && !before.contains(',') {
                    let k = choose|k: int| 0 <= k < esc@.len() && esc@[k] == ',';
                    if k < before.len() {
                        assert(before[k] == ',');
                        assert(before.contains(','));
                    } else {
                        assert(esc@[k] != ',');
                    }
                }
            }
        }
    }
    proof {
        assert(s@.take(v@.len() as int) =~= s@);
    }
    if has_comma {
        let mut out: Vec<char> = Vec::new();
        out.push('"');
        let ghost ev = esc@;
        let mut esc2 = esc;
        out.append(&mut esc2);
        out.push('"');
        proof {
            assert(out@ =~= seq!['"'] + ev + seq!['"']);
        }
        string_from_chars(&out)
    } else {
        string_from_chars(&esc)
    }
}

/// Join already-encoded CSV fields into one line.
pub fn csv_line(fields: &Vec<String>) -> (r: String)
    ensures
        r@ == csv_join(fields@.map_values(|f: String| f@)),
{
    let ghost views = fields@.map_values(|f: String| f@);
    let mut out: Vec<char> = Vec::new();
    let mut i: usize = 0;
    while i < fields.len()
        invariant
            views == fields@.map_values(|f: String| f@),
            i <= fields@.len(),
            out@ == csv_join(views.take(i as int)),
        decreases fields@.len() - i,
    {
        let ghost before = out@;
        if i > 0 {
            out.push(',');
        }
        let fv = chars_of(fields[i].as_str());
        let ghost fvv = fv@;
        let mut fv2 = fv;
        out.append(&mut fv2);
        i = i + 1;
        proof {
            assert(views.take(i as int).drop_last() =~= views.take(i as int - 1));
            assert(views.take(i as int).last() == views[i as int - 1]);
            if i == 1 {
                assert(out@ =~= fvv);
                assert(csv_join(views.take(1)) == views.take(1)[0]);
            } else {
                assert(out@ =~= before + seq![','] + fvv);
            }
            assert(out@ =~= csv_join(views.take(i as int)));
        }
    }
    proof {
        assert(views.take(fields@.len() as int) =~= views);
    }
    string_from_chars(&out)
}

} // verus!
