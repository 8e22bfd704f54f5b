//! The JSON text of the route-parameter carrier: an object of string keys
//! and string values, written in parameter order with the standard string
//! escapes, so the same parameters always serialize to the same text.

use vstd::prelude::*;

use crate::strutil::join_chars;
use crate::strutil::join_str;
use crate::strutil::lemma_join_chars_snoc;

verus! {

/// The hexadecimal digit characters, in value order.
pub open spec fn hex_digit(d: int) -> char {
    "0123456789abcdef"@[d]
}

/// The JSON encoding of one character inside a string literal.
pub open spec fn json_escape_char(c: char) -> Seq<char> {
    if c == '"' {
        seq!['\\', '"']
    } else if c == '\\' {
        seq!['\\', '\\']
    } else if c == '\n' {
        seq!['\\', 'n']
    } else if c == '\r' {
        seq!['\\', 'r']
    } else if c == '\t' {
        seq!['\\', 't']
    } else if (c as u32) < 32 {
        seq!['\\', 'u', '0', '0'] + seq![hex_digit((c as u32 / 16) as int)] + seq![
            hex_digit((c as u32 % 16) as int),
        ]
    } else {
        seq![c]
    }
}

/// The JSON encoding of a string's characters.
pub open spec fn json_escape(s: Seq<char>) -> Seq<char>
    decreases s.len(),
{
    if s.len() == 0 {
        Seq::<char>::empty()
    } else {
        json_escape_char(s[0]) + json_escape(s.skip(1))
    }
}

pub proof fn lemma_json_escape_snoc(s: Seq<char>)
    requires
        s.len() >= 1,
    ensures
        json_escape(s) == json_escape(s.drop_last()) + json_escape_char(s.last()),
    decreases s.len(),
{
    if s.len() == 1 {
        assert(json_escape(s.skip(1)) =~= Seq::<char>::empty());
        assert(json_escape(s.drop_last()) =~= Seq::<char>::empty());
        assert(json_escape(s) =~= json_escape(s.drop_last()) + json_escape_char(s.last()));
    } else {
        lemma_json_escape_snoc(s.skip(1));
        assert(s.skip(1).drop_last() =~= s.drop_last().skip(1));
        assert(s.skip(1).last() == s.last());
        assert(s.drop_last()[0] == s[0]);
        assert(json_escape(s) =~= json_escape(s.drop_last()) + json_escape_char(s.last()));
    }
}

/// A JSON string literal: the escaped characters between double quotes.
pub open spec fn json_string(s: Seq<char>) -> Seq<char> {
    seq!['"'] + json_escape(s) + seq!['"']
}

/// One `"key":"value"` member of the parameter object.
pub open spec fn json_member(p: (Seq<char>, Seq<char>)) -> Seq<char> {
    json_string(p.0) + seq![':'] + json_string(p.1)
}

/// The parameter object: its members in parameter order, comma-separated,
/// between braces.
pub open spec fn params_json(ps: Seq<(Seq<char>, Seq<char>)>) -> Seq<char> {
    seq!['{'] + join_chars(ps.map_values(|p: (Seq<char>, Seq<char>)| json_member(p)), ',') + seq![
        '}',
    ]
}

/// Escapes a string for a JSON literal; faithful to `json_escape`.
pub fn escape_json_string(s: &str) -> (r: String)
    ensures
        r@ == json_escape(s@),
{
    let n = s.unicode_len();
    let mut out = String::new();
    proof {
        assert(out@ =~= json_escape(s@.take(0)));
        assert(s@.take(0) =~= Seq::<char>::empty());
    }
    let mut i: usize = 0;
    while i < n
        invariant
            i <= n,
            n == s@.len(),
            out@ == json_escape(s@.take(i as int)),
        decreases n - i,
    {
        let ghost before = out@;
        let c = s.get_char(i);
        if c == '"' {
            out.append("\\\"");
            proof {
                reveal_strlit("\\\"");
            }
        } else if c == '\\' {
            out.append("\\\\");
            proof {
                reveal_strlit("\\\\");
            }
        } else if c == '\n' {
            out.append("\\n");
            proof {
                reveal_strlit("\\n");
            }
        } else if c == '\r' {
            out.append("\\r");
            proof {
                reveal_strlit("\\r");
            }
        } else if c == '\t' {
            out.append("\\t");
            proof {
                reveal_strlit("\\t");
            }
        } else if (c as u32) < 32 {
            out.append("\\u00");
            let code = c as u32;
            let hi = (code / 16) as usize;
            let lo = (code % 16) as usize;
            let digits = "0123456789abcdef";
            proof {
                reveal_strlit("\\u00");
                reveal_strlit("0123456789abcdef");
            }
            out.append(digits.substring_char(hi, hi + 1));
            out.append(digits.substring_char(lo, lo + 1));
            proof {
                assert(digits@.subrange(hi as int, hi as int + 1) =~= seq![
                    hex_digit((c as u32 / 16) as int),
                ]);
                assert(digits@.subrange(lo as int, lo as int + 1) =~= seq![
                    hex_digit((c as u32 % 16) as int),
                ]);
            }
        } else {
            out.append(s.substring_char(i, i + 1));
            proof {
                assert(s@.subrange(i as int, i as int + 1) =~= seq![c]);
            }
        }
        proof {
            assert(out@ =~= before + json_escape_char(c));
            lemma_json_escape_snoc(s@.take(i as int + 1));
            assert(s@.take(i as int + 1).drop_last() =~= s@.take(i as int));
            assert(s@.take(i as int + 1).last() == c);
        }
        i += 1;
    }
    proof {
        assert(s@.take(n as int) =~= s@);
    }
    out
}

/// Writes the parameter object; faithful to `params_json`.
pub fn params_to_json(params: &Vec<(String, String)>) -> (r: String)
    ensures
        r@ == params_json(params.deep_view()),
{
    let ghost pv = params.deep_view();
    let ghost members = pv.map_values(|p: (Seq<char>, Seq<char>)| json_member(p));
    let mut parts: Vec<String> = Vec::new();
    proof {
        assert(parts.deep_view() =~= members.take(0));
        assert(members.take(0) =~= Seq::<Seq<char>>::empty());
    }
    let n = params.len();
    let mut i: usize = 0;
    while i < n
        invariant
            i <= n,
            n == params.len(),
            pv == params.deep_view(),
            members == pv.map_values(|p: (Seq<char>, Seq<char>)| json_member(p)),
            parts.deep_view() == members.take(i as int),
        decreases n - i,
    {
        let ghost prev = parts.deep_view();
        let mut member = String::new();
        member.append("\"");
        let key_esc = escape_json_string(params[i].0.as_str());
        member.append(key_esc.as_str());
        member.append("\":\"");
        let val_esc = escape_json_string(params[i].1.as_str());
        member.append(val_esc.as_str());
        member.append("\"");
        proof {
            reveal_strlit("\"");
            reveal_strlit("\":\"");
            assert(pv[i as int].0 == params@[i as int].0@);
            assert(pv[i as int].1 == params@[i as int].1@);
            assert(member@ =~= json_member(pv[i as int]));
            assert(members[i as int] == json_member(pv[i as int]));
        }
        parts.push(member);
        proof {
            assert(parts.deep_view() =~= prev.push(members[i as int]));
            assert(members.take(i as int + 1) =~= prev.push(members[i as int]));
        }
        i += 1;
    }
    proof {
        assert(members.take(n as int) =~= members);
        reveal_strlit(",");
    }
    let joined = join_str(&parts, ",");
    let mut out = String::new();
    out.append("{");
    out.append(joined.as_str());
    out.append("}");
    proof {
        reveal_strlit("{");
        reveal_strlit("}");
        assert(out@ =~= params_json(pv));
    }
    out
}

} // verus!
