//! Key names as the terminal reports them.
use vstd::prelude::*;

use crate::text::str_eq_lit;

verus! {

/// The key name after aliases: `return` is `enter`, `escape` is `esc`, and
/// `bs` and `del` are `backspace`.
pub open spec fn normalized_key(k: Seq<char>) -> Seq<char> {
    if k == "return"@ {
        "enter"@
    } else if k == "escape"@ {
        "esc"@
    } else if k == "bs"@ || k == "del"@ {
        "backspace"@
    } else {
        k
    }
}

/// The canonical name of a key.
pub fn normalize_key(key: &str) -> (r: &str)
    ensures
        r@ == normalized_key(key@),
{
    proof {
        reveal_strlit("return");
        reveal_strlit("escape");
        reveal_strlit("bs");
        reveal_strlit("del");
    }
    if str_eq_lit(key, "return") {
        "enter"
    } else if str_eq_lit(key, "escape") {
        "esc"
    } else if str_eq_lit(key, "bs") || str_eq_lit(key, "del") {
        "backspace"
    } else {
        key
    }
}

/// Normalizing a key name twice is normalizing it once.
pub proof fn law_normalize_idempotent(k: Seq<char>)
    ensures
        normalized_key(normalized_key(k)) == normalized_key(k),
{
    reveal_strlit("return");
    reveal_strlit("escape");
    reveal_strlit("bs");
    reveal_strlit("del");
    reveal_strlit("enter");
    reveal_strlit("esc");
    reveal_strlit("backspace");
    assert("enter"@.len() == 5 && "esc"@.len() == 3 && "backspace"@.len() == 9);
    assert("return"@.len() == 6 && "escape"@.len() == 6 && "bs"@.len() == 2 && "del"@.len() == 3);
    assert("esc"@[0] != "del"@[0]);
    assert("esc"@ != "del"@);
}

} // verus!
