//! The configuration file format.
use vstd::prelude::*;

use crate::error::strs;
use crate::text::push_str;

verus! {

/// The `  - <locale>` lines of a locale list.
pub open spec fn locale_lines(ls: Seq<Seq<char>>) -> Seq<char>
    decreases ls.len(),
{
    if ls.len() == 0 {
        seq![]
    } else {
        locale_lines(ls.drop_last()) + "  - "@ + ls.last() + "\n"@
    }
}

/// The configuration text for these locales.
pub open spec fn config_yaml(ls: Seq<Seq<char>>) -> Seq<char> {
    if ls.len() == 0 {
        "{}\n"@
    } else {
        "locales:\n"@ + locale_lines(ls)
    }
}

/// The configuration as YAML: `{}` without locales, otherwise a `locales` list.
pub fn to_yaml(locales: &[String]) -> (r: String)
    ensures
        r@ == config_yaml(strs(locales@)),
{
    let mut out = String::new();
    if locales.len() == 0 {
        push_str(&mut out, "{}\n");
        return out;
    }
    push_str(&mut out, "locales:\n");
    let ghost head = out@;
    let ghost ls = strs(locales@);
    let mut i: usize = 0;
    assert(ls.take(0) =~= Seq::<Seq<char>>::empty());
    while i < locales.len()
        invariant
            i <= locales@.len(),
            ls == strs(locales@),
            out@ == head + locale_lines(ls.take(i as int)),
        decreases locales@.len() - i,
    {
        push_str(&mut out, "  - ");
        push_str(&mut out, locales[i].as_str());
        push_str(&mut out, "\n");
        assert(ls.take(i + 1).drop_last() =~= ls.take(i as int));
        i = i + 1;
        assert(out@ =~= head + locale_lines(ls.take(i as int)));
    }
    assert(ls.take(i as int) =~= ls);
    out
}

} // verus!
