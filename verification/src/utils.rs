//! The type-conversion table and small string utilities.

use vstd::prelude::*;
use vstd::string::StrSliceExecFns;
use vstd::string::StringExecFns;
use crate::error::CompileError;

verus! {

/// An IR scalar type: either a base integer type carried by its textual
/// name, or the enumeration-backed ordering type.
#[derive(Debug)]
pub enum AQLType {
    Base(String),
    Ordering,
}

/// The mathematical view of an [`AQLType`].
#[verifier::ext_equal]
pub enum AQLTypeView {
    Base(Seq<char>),
    Ordering,
}

impl View for AQLType {
    type V = AQLTypeView;

    open spec fn view(&self) -> AQLTypeView {
        match self {
            AQLType::Base(s) => AQLTypeView::Base(s@),
            AQLType::Ordering => AQLTypeView::Ordering,
        }
    }
}

impl Clone for AQLType {
    /// A clone of a type has the same view as the type.
    fn clone(&self) -> (res: Self)
        ensures
            res@ == self@,
    {
        match self {
            AQLType::Base(s) => AQLType::Base(s.clone()),
            AQLType::Ordering => AQLType::Ordering,
        }
    }
}

/// The element orderings a state queue can declare.
#[derive(Clone)]
pub enum Ordering {
    FIFO(String),
    HASH(String),
    STACK(String),
}

/// A character that trimming removes from the ends of a name.
pub open spec fn is_ws(c: char) -> bool {
    c == ' ' || c == '\t' || c == '\n' || c == '\r'
}

/// The characters of `s` with leading and trailing whitespace removed.
pub open spec fn spec_trim(s: Seq<char>) -> Seq<char>
    decreases s.len(),
{
    if s.len() == 0 {
        s
    } else if is_ws(s[0]) {
        spec_trim(s.drop_first())
    } else if is_ws(s.last()) {
        spec_trim(s.drop_last())
    } else {
        s
    }
}

/// Trimming a sequence of nothing but whitespace leaves nothing.
proof fn lemma_trim_all_ws(s: Seq<char>)
    requires
        forall|k: int| 0 <= k < s.len() ==> is_ws(s[k]),
    ensures
        spec_trim(s).len() == 0,
    decreases s.len(),
{
    if s.len() > 0 {
        lemma_trim_all_ws(s.drop_first());
    }
}

/// Trimming equals the subrange that drops exactly the whitespace ends.
proof fn lemma_trim_subrange(s: Seq<char>, i: int, j: int)
    requires
        0 <= i <= j <= s.len(),
        forall|k: int| 0 <= k < i ==> is_ws(s[k]),
        forall|k: int| j <= k < s.len() ==> is_ws(s[k]),
        i == j || (!is_ws(s[i]) && !is_ws(s[j - 1])),
    ensures
        spec_trim(s) =~= s.subrange(i, j),
    decreases s.len(),
{
    if s.len() == 0 {
        assert(spec_trim(s) =~= s.subrange(i, j));
    } else if is_ws(s[0]) {
        if i == j {
            lemma_trim_all_ws(s);
        } else {
            let t = s.drop_first();
            lemma_trim_subrange(t, i - 1, j - 1);
            assert(t.subrange(i - 1, j - 1) =~= s.subrange(i, j));
        }
    } else if is_ws(s.last()) {
        if i == j {
            lemma_trim_all_ws(s);
        } else {
            let t = s.drop_last();
            lemma_trim_subrange(t, i, j);
            assert(t.subrange(i, j) =~= s.subrange(i, j));
        }
    } else {
        assert(i == 0);
        assert(j == s.len());
        assert(spec_trim(s) =~= s.subrange(i, j));
    }
}

/// Whether a character counts as trimmable whitespace.
fn is_ws_char(c: char) -> (b: bool)
    ensures
        b == is_ws(c),
{
    c == ' ' || c == '\t' || c == '\n' || c == '\r'
}

/// The string with leading and trailing whitespace removed.
pub fn trim_str(s: &str) -> (r: String)
    ensures
        r@ == spec_trim(s@),
{
    let n = s.unicode_len();
    let mut i: usize = 0;
    while i < n && is_ws_char(s.get_char(i))
        invariant
            i <= n,
            n == s@.len(),
            forall|k: int| 0 <= k < i ==> is_ws(s@[k]),
        decreases n - i,
    {
        i = i + 1;
    }
    let mut j: usize = n;
    while j > i && is_ws_char(s.get_char(j - 1))
        invariant
            i <= j <= n,
            n == s@.len(),
            forall|k: int| j <= k < n ==> is_ws(s@[k]),
        decreases j,
    {
        j = j - 1;
    }
    proof {
        lemma_trim_subrange(s@, i as int, j as int);
    }
    let sub = s.substring_char(i, j);
    sub.to_owned()
}

/// Whether two string slices hold the same characters.
pub fn str_eq(a: &str, b: &str) -> (r: bool)
    ensures
        r == (a@ == b@),
{
    let sa: String = String::from_str(a);
    let sb: String = String::from_str(b);
    sa.eq(&sb)
}

/// The decimal digit for a value below ten.
pub open spec fn spec_digit(d: int) -> char {
    if d == 0 {
        '0'
    } else if d == 1 {
        '1'
    } else if d == 2 {
        '2'
    } else if d == 3 {
        '3'
    } else if d == 4 {
        '4'
    } else if d == 5 {
        '5'
    } else if d == 6 {
        '6'
    } else if d == 7 {
        '7'
    } else if d == 8 {
        '8'
    } else {
        '9'
    }
}

/// The decimal rendering of a natural number, most significant digit
/// first.
pub open spec fn spec_dec(n: nat) -> Seq<char>
    decreases n,
{
    if n < 10 {
        seq![spec_digit(n as int)]
    } else {
        spec_dec(n / 10).push(spec_digit((n % 10) as int))
    }
}

/// The one-character string for a decimal digit.
fn digit_str(d: usize) -> (r: &'static str)
    requires
        d < 10,
    ensures
        r@ =~= seq![spec_digit(d as int)],
{
    proof {
        reveal_strlit("0");
        reveal_strlit("1");
        reveal_strlit("2");
        reveal_strlit("3");
        reveal_strlit("4");
        reveal_strlit("5");
        reveal_strlit("6");
        reveal_strlit("7");
        reveal_strlit("8");
        reveal_strlit("9");
    }
    if d == 0 {
        "0"
    } else if d == 1 {
        "1"
    } else if d == 2 {
        "2"
    } else if d == 3 {
        "3"
    } else if d == 4 {
        "4"
    } else if d == 5 {
        "5"
    } else if d == 6 {
        "6"
    } else if d == 7 {
        "7"
    } else if d == 8 {
        "8"
    } else {
        "9"
    }
}

/// Renders a number in decimal.
pub fn usize_to_string(n: usize) -> (r: String)
    ensures
        r@ == spec_dec(n as nat),
    decreases n,
{
    if n < 10 {
        String::from_str(digit_str(n))
    } else {
        let mut s = usize_to_string(n / 10);
        s.append(digit_str(n % 10));
        proof {
            assert(s@ =~= spec_dec(n as nat));
        }
        s
    }
}

/// The fixed mapping from trimmed DSL type names to IR scalar types:
/// `bool` is one bit wide, `int` and `i32` thirty-two, `i64` sixty-four,
/// and `element_ordering` is the enumeration-backed ordering type.
pub open spec fn spec_convert(name: Seq<char>) -> Option<AQLTypeView> {
    if name == "bool"@ {
        Some(AQLTypeView::Base("i1"@))
    } else if name == "int"@ || name == "i32"@ {
        Some(AQLTypeView::Base("i32"@))
    } else if name == "i64"@ {
        Some(AQLTypeView::Base("i64"@))
    } else if name == "element_ordering"@ {
        Some(AQLTypeView::Ordering)
    } else {
        None
    }
}

/// The type-conversion table. The mapping is fixed, so the table carries
/// no state; it exists so that one table can be built once and passed by
/// reference wherever types are resolved.
#[derive(Debug, Clone)]
pub struct ConversionTable {
}

impl ConversionTable {
    /// Builds the fixed conversion table.
    pub fn new() -> (r: Self) {
        ConversionTable {  }
    }

    /// Resolves a DSL type name, trimmed, against the fixed mapping;
    /// a name outside the mapping is an `UnknownType` error.
    pub fn convert(&self, t: &String) -> (r: Result<AQLType, CompileError>)
        ensures
            (match spec_convert(spec_trim(t@)) {
                Some(m) => r matches Ok(v) && v@ == m,
                None => r matches Err(e) && e == CompileError::UnknownType,
            }),
    {
        let key = trim_str(t.as_str());
        if str_eq(key.as_str(), "bool") {
            Ok(AQLType::Base(String::from_str("i1")))
        } else if str_eq(key.as_str(), "int") || str_eq(key.as_str(), "i32") {
            Ok(AQLType::Base(String::from_str("i32")))
        } else if str_eq(key.as_str(), "i64") {
            Ok(AQLType::Base(String::from_str("i64")))
        } else if str_eq(key.as_str(), "element_ordering") {
            Ok(AQLType::Ordering)
        } else {
            Err(CompileError::UnknownType)
        }
    }
}

} // verus!
