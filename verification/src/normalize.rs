//! Normalization of header names, swallowing-role values and the category
//! field, with the laws that re-normalizing changes nothing.

use vstd::prelude::*;
use vstd::string::StrSliceExecFns;
use vstd::string::StringExecFns;

use crate::model::Field;
use crate::model::LoadError;
use crate::model::LoadErrorModel;
use crate::model::NerveType;
use crate::text::ascii_lower_char;
use crate::text::chars_eq_str;
use crate::text::chars_to_string;
use crate::text::is_lowered;
use crate::text::is_space;
use crate::text::is_space_char;
use crate::text::lemma_lower_seq_is_lowered;
use crate::text::lemma_lowered_fixed;
use crate::text::lemma_remove_spaces_element;
use crate::text::lemma_remove_spaces_noop;
use crate::text::lemma_strip_bom_skip;
use crate::text::lemma_trim_end_take;
use crate::text::lemma_trim_idempotent;
use crate::text::lemma_trim_start_skip;
use crate::text::lower_chars;
use crate::text::lower_seq;
use crate::text::remove_space_chars;
use crate::text::remove_spaces;
use crate::text::str_chars;
use crate::text::strip_bom;
use crate::text::trim;
use crate::text::trim_str;

verus! {

/// The fixed correction table: one known misspelling of "function", and the
/// underscore form of the swallowing-role column.
pub open spec fn corrected(s: Seq<char>) -> Seq<char> {
    if s == "fuction"@ {
        "function"@
    } else if s == "role_in_swallowing"@ {
        "roleinswallowing"@
    } else {
        s
    }
}

/// The canonical key of a raw header: trimmed, leading byte-order marks
/// stripped, lower-cased, spaces removed, and corrected.
pub open spec fn normalized_header(s: Seq<char>) -> Seq<char> {
    corrected(remove_spaces(lower_seq(strip_bom(trim(s)))))
}

/// The canonical swallowing-role value: trimmed, and blank when empty or
/// (case-insensitively) the literal "none".
pub open spec fn normalized_role(s: Seq<char>) -> Seq<char> {
    if trim(s).len() == 0 || lower_seq(trim(s)) == "none"@ {
        Seq::empty()
    } else {
        trim(s)
    }
}

/// How a raw category value parses: exactly "sensory", "motor" or "both"
/// after trimming and lower-casing; empty is a missing field, anything else
/// an invalid value carrying the trimmed text.
pub open spec fn parsed_type(s: Seq<char>, row: int) -> Result<NerveType, LoadErrorModel> {
    let n = lower_seq(trim(s));
    if n == "sensory"@ {
        Result::Ok(NerveType::Sensory)
    } else if n == "motor"@ {
        Result::Ok(NerveType::Motor)
    } else if n == "both"@ {
        Result::Ok(NerveType::Both)
    } else if n.len() == 0 {
        Result::Err(LoadErrorModel::MissingField { row, field: Field::Type })
    } else {
        Result::Err(
            LoadErrorModel::InvalidValue { row, field: Field::Type, value: trim(s) },
        )
    }
}

/// The canonical key of a raw header string.
pub fn normalize_header(header: &str) -> (r: String)
    ensures
        r@ == normalized_header(header@),
{
    let n = header.unicode_len();
    let mut start: usize = 0;
    while start < n && is_space(header.get_char(start))
        invariant
            start <= n,
            n == header@.len(),
            forall|k: int| 0 <= k < start ==> is_space_char(header@[k]),
        decreases n - start,
    {
        start = start + 1;
    }
    let mut end: usize = n;
    while end > start && is_space(header.get_char(end - 1))
        invariant
            start <= end <= n,
            n == header@.len(),
            forall|k: int| end <= k < n ==> is_space_char(header@[k]),
        decreases end,
    {
        end = end - 1;
    }
    proof {
        lemma_trim_start_skip(header@, start as int);
        lemma_trim_end_take(header@.skip(start as int), end - start);
        assert(header@.skip(start as int).take(end - start) =~= header@.subrange(
            start as int,
            end as int,
        ));
    }
    let trimmed = header.substring_char(start, end);
    let tn = end - start;
    let mut b: usize = 0;
    while b < tn && trimmed.get_char(b) == '\u{feff}'
        invariant
            b <= tn,
            tn == trimmed@.len(),
            forall|k: int| 0 <= k < b ==> trimmed@[k] == '\u{feff}',
        decreases tn - b,
    {
        b = b + 1;
    }
    proof {
        lemma_strip_bom_skip(trimmed@, b as int);
        assert(trimmed@.subrange(b as int, tn as int) =~= trimmed@.skip(b as int));
    }
    let stripped = trimmed.substring_char(b, tn);
    let cs = str_chars(stripped);
    let low = lower_chars(&cs);
    let out = remove_space_chars(&low);
    if chars_eq_str(&out, "fuction") {
        String::from_str("function")
    } else if chars_eq_str(&out, "role_in_swallowing") {
        String::from_str("roleinswallowing")
    } else {
        chars_to_string(&out)
    }
}

/// The canonical swallowing-role value of a raw field.
pub fn normalize_role(value: &str) -> (r: String)
    ensures
        r@ == normalized_role(value@),
{
    let t = trim_str(value);
    if t.as_str().is_empty() {
        return String::new();
    }
    let cs = str_chars(t.as_str());
    let low = lower_chars(&cs);
    if chars_eq_str(&low, "none") {
        String::new()
    } else {
        t
    }
}

/// The parsed category of a raw field; `row_index` only labels the error.
pub fn parse_type(value: &str, row_index: usize) -> (r: Result<NerveType, LoadError>)
    ensures
        match r {
            Result::Ok(t) => parsed_type(value@, row_index as int) == Result::<
                NerveType,
                LoadErrorModel,
            >::Ok(t),
            Result::Err(e) => parsed_type(value@, row_index as int) == Result::<
                NerveType,
                LoadErrorModel,
            >::Err(e@),
        },
{
    let t = trim_str(value);
    let cs = str_chars(t.as_str());
    let low = lower_chars(&cs);
    if chars_eq_str(&low, "sensory") {
        Result::Ok(NerveType::Sensory)
    } else if chars_eq_str(&low, "motor") {
        Result::Ok(NerveType::Motor)
    } else if chars_eq_str(&low, "both") {
        Result::Ok(NerveType::Both)
    } else if low.len() == 0 {
        Result::Err(LoadError::MissingField { row: row_index, field: Field::Type })
    } else {
        Result::Err(
            LoadError::InvalidValue { row: row_index, field: Field::Type, value: t },
        )
    }
}

/// Law: normalizing an already-normalized header changes nothing, for every
/// header whose normal form neither begins nor ends in what another pass
/// would strip (white space or a leading byte-order mark).
pub proof fn lemma_normalize_header_idempotent(s: Seq<char>)
    requires
        strip_bom(trim(normalized_header(s))) == normalized_header(s),
    ensures
        normalized_header(normalized_header(s)) == normalized_header(s),
{
    let y = lower_seq(strip_bom(trim(s)));
    let x = remove_spaces(y);
    let r = normalized_header(s);
    assert forall|i: int| 0 <= i < x.len() implies ascii_lower_char(#[trigger] x[i]) == x[i]
        && x[i] != ' ' by {
        lemma_remove_spaces_element(y, i);
        lemma_lower_seq_is_lowered(strip_bom(trim(s)));
        let j = choose|j: int| 0 <= j < y.len() && y[j] == x[i];
        assert(ascii_lower_char(y[j]) == y[j]);
    }
    lemma_corrected_form_fixed(x);
    assert(normalized_header(r) == corrected(remove_spaces(lower_seq(r))));
}

/// The output of `corrected` over a lowered, space-free sequence is fixed by
/// another round of lower-casing, space removal and correction.
proof fn lemma_corrected_form_fixed(x: Seq<char>)
    requires
        is_lowered(x),
        forall|i: int| 0 <= i < x.len() ==> #[trigger] x[i] != ' ',
    ensures
        lower_seq(corrected(x)) == corrected(x),
        remove_spaces(corrected(x)) == corrected(x),
        corrected(corrected(x)) == corrected(x),
{
    reveal_strlit("fuction");
    reveal_strlit("function");
    reveal_strlit("role_in_swallowing");
    reveal_strlit("roleinswallowing");
    let r = corrected(x);
    if x == "fuction"@ || x == "role_in_swallowing"@ {
        assert(is_lowered(r)) by {
            assert(forall|i: int|
                0 <= i < r.len() ==> ascii_lower_char(#[trigger] r[i]) == r[i]);
        }
        assert(forall|i: int| 0 <= i < r.len() ==> #[trigger] r[i] != ' ');
    }
    lemma_lowered_fixed(r);
    lemma_remove_spaces_noop(r);
    assert(r != "fuction"@);
    assert(r != "role_in_swallowing"@);
}

/// Law: normalizing an already-normalized swallowing-role value changes
/// nothing, for every input.
pub proof fn lemma_normalize_role_idempotent(s: Seq<char>)
    ensures
        normalized_role(normalized_role(s)) == normalized_role(s),
{
    let r = normalized_role(s);
    if trim(s).len() == 0 || lower_seq(trim(s)) == "none"@ {
        assert(trim(r) =~= r);
    } else {
        lemma_trim_idempotent(s);
    }
}

} // verus!

