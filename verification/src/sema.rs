//! Checks of the semantic analysis that stand on their own.

use vstd::prelude::*;
use vstd::string::{StrSliceExecFns, StringExecFns};

verus! {

/// The conversions a format string asks for, in order: each `%` is followed
/// by `%` (a literal percent, asking for nothing) or by one of `d`, `f`, `s`,
/// `b`; any other character after `%`, or a `%` at the very end, is an error.
pub open spec fn format_specifiers(s: Seq<char>) -> Result<Seq<char>, Seq<char>>
    decreases s.len(),
{
    if s.len() == 0 {
        Ok(seq![])
    } else if s[0] != '%' {
        format_specifiers(s.drop_first())
    } else if s.len() == 1 {
        Err("Format string ends with `%`"@)
    } else if s[1] == '%' {
        format_specifiers(s.skip(2))
    } else if s[1] == 'd' || s[1] == 'f' || s[1] == 's' || s[1] == 'b' {
        match format_specifiers(s.skip(2)) {
            Ok(rest) => Ok(seq![s[1]] + rest),
            Err(e) => Err(e),
        }
    } else {
        Err("Unsupported format specifier `%"@ + seq![s[1]] + "`"@)
    }
}

/// The conversions the format string `fmt` asks for (see `format_specifiers`).
pub fn parse_format_specifiers(fmt: &str) -> (r: Result<Vec<char>, String>)
    ensures
        match (r, format_specifiers(fmt@)) {
            (Ok(v), Ok(s)) => v@ == s,
            (Err(m), Err(e)) => m@ == e,
            _ => false,
        },
{
    let n = fmt.unicode_len();
    let mut specs: Vec<char> = Vec::new();
    let mut i: usize = 0;
    assert(fmt@.skip(0) =~= fmt@);
    proof {
        match format_specifiers(fmt@) {
            Ok(rest) => {
                assert(specs@ + rest =~= rest);
            },
            Err(_) => {},
        }
    }
    while i < n
        invariant
            n == fmt@.len(),
            i <= n,
            format_specifiers(fmt@) == match format_specifiers(fmt@.skip(i as int)) {
                Ok(rest) => Ok(specs@ + rest),
                Err(e) => Err(e),
            },
        decreases n - i,
    {
        let ghost here = fmt@.skip(i as int);
        let c = fmt.get_char(i);
        assert(here[0] == c);
        if c != '%' {
            assert(here.drop_first() =~= fmt@.skip(i + 1));
            i += 1;
            continue;
        }
        if i + 1 >= n {
            assert(here.len() == 1);
            return Err(String::from_str("Format string ends with `%`"));
        }
        let spec = fmt.get_char(i + 1);
        assert(here[1] == spec);
        assert(here.skip(2) =~= fmt@.skip(i + 2));
        if spec == '%' {
        } else if spec == 'd' || spec == 'f' || spec == 's' || spec == 'b' {
            let ghost before = specs@;
            specs.push(spec);
            proof {
                match format_specifiers(fmt@.skip(i + 2)) {
                    Ok(rest) => {
                        assert(before + (seq![spec] + rest) =~= specs@ + rest);
                    },
                    Err(_) => {},
                }
            }
        } else {
            let mut m = String::from_str("Unsupported format specifier `%");
            let one = fmt.substring_char(i + 1, i + 2);
            assert(one@ =~= seq![spec]);
            m.append(one);
            m.append("`");
            return Err(m);
        }
        i += 2;
    }
    assert(fmt@.skip(i as int) =~= Seq::<char>::empty());
    assert(specs@ + Seq::<char>::empty() =~= specs@);
    Ok(specs)
}

} // verus!
