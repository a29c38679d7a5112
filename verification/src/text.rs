//! Text helpers: whitespace trimming, status words and text ordering.

use vstd::prelude::*;

verus! {

/// The `White_Space` property of the Unicode Character Database: the notion of
/// whitespace that `str::trim` strips from both ends of a string. It holds of
/// 25 code points: U+0009 to U+000D, U+0020, U+0085, U+00A0, U+1680, U+2000
/// to U+200A, U+2028, U+2029, U+202F, U+205F and U+3000.
pub open spec fn unicode_white_space(c: char) -> bool {
    let u = c as u32;
    ||| 0x09 <= u <= 0x0D
    ||| u == 0x20
    ||| u == 0x85
    ||| u == 0xA0
    ||| u == 0x1680
    ||| 0x2000 <= u <= 0x200A
    ||| u == 0x2028
    ||| u == 0x2029
    ||| u == 0x202F
    ||| u == 0x205F
    ||| u == 0x3000
}

/// `s` with its leading whitespace removed.
pub open spec fn trim_start_view(s: Seq<char>) -> Seq<char>
    decreases s.len(),
{
    if s.len() > 0 && unicode_white_space(s[0]) {
        trim_start_view(s.drop_first())
    } else {
        s
    }
}

/// `s` with its trailing whitespace removed.
pub open spec fn trim_end_view(s: Seq<char>) -> Seq<char>
    decreases s.len(),
{
    if s.len() > 0 && unicode_white_space(s.last()) {
        trim_end_view(s.drop_last())
    } else {
        s
    }
}

/// `s` with leading and trailing whitespace removed.
pub open spec fn trim_view(s: Seq<char>) -> Seq<char> {
    trim_end_view(trim_start_view(s))
}

/// Every character of `s` is whitespace (the empty text is blank).
pub open spec fn is_blank(s: Seq<char>) -> bool {
    forall|i: int| 0 <= i < s.len() ==> unicode_white_space(#[trigger] s[i])
}

/// Calls `str::trim`. Trusted: its documentation says that it returns the
/// string with leading and trailing whitespace removed, whitespace being the
/// Unicode `White_Space` property.
#[verifier::external_body]
pub(crate) fn trim_text(s: &str) -> (t: &str)
    ensures
        t@ == trim_view(s@),
        t@.len() > 0 ==> !unicode_white_space(t@[0]) && !unicode_white_space(t@.last()),
{
    s.trim()
}

proof fn lemma_trim_end_empty(s: Seq<char>)
    ensures
        trim_end_view(s).len() == 0 <==> is_blank(s),
    decreases s.len(),
{
    if s.len() > 0 && unicode_white_space(s.last()) {
        lemma_trim_end_empty(s.drop_last());
        if is_blank(s.drop_last()) {
            assert forall|i: int| 0 <= i < s.len() implies unicode_white_space(#[trigger] s[i]) by {
                if i < s.len() - 1 {
                    assert(s.drop_last()[i] == s[i]);
                }
            }
        }
        if is_blank(s) {
            assert forall|i: int| 0 <= i < s.drop_last().len() implies unicode_white_space(
                #[trigger] s.drop_last()[i],
            ) by {
                assert(s.drop_last()[i] == s[i]);
            }
        }
    } else if s.len() > 0 {
        assert(!unicode_white_space(s[s.len() - 1]));
    }
}

/// Trimming leaves nothing exactly when the text is blank.
pub proof fn lemma_trim_empty_iff_blank(s: Seq<char>)
    ensures
        trim_view(s).len() == 0 <==> is_blank(s),
    decreases s.len(),
{
    lemma_trim_end_empty(trim_start_view(s));
    if s.len() > 0 && unicode_white_space(s[0]) {
        lemma_trim_empty_iff_blank(s.drop_first());
        lemma_trim_end_empty(trim_start_view(s.drop_first()));
        if is_blank(s.drop_first()) {
            assert forall|i: int| 0 <= i < s.len() implies unicode_white_space(#[trigger] s[i]) by {
                if i > 0 {
                    assert(s.drop_first()[i - 1] == s[i]);
                }
            }
        }
        if is_blank(s) {
            assert forall|i: int| 0 <= i < s.drop_first().len() implies unicode_white_space(
                #[trigger] s.drop_first()[i],
            ) by {
                assert(s.drop_first()[i] == s[i + 1]);
            }
        }
    } else if s.len() > 0 {
        assert(!unicode_white_space(s[0]));
        lemma_trim_end_nonempty_start(s);
    }
}

proof fn lemma_trim_end_nonempty_start(s: Seq<char>)
    requires
        s.len() > 0,
        !unicode_white_space(s[0]),
    ensures
        trim_end_view(s).len() > 0,
        !is_blank(s),
    decreases s.len(),
{
    assert(!unicode_white_space(s[0]));
    if unicode_white_space(s.last()) {
        assert(s.len() > 1);
        assert(s.drop_last()[0] == s[0]);
        lemma_trim_end_nonempty_start(s.drop_last());
    }
}

/// The status word of an open row.
pub open spec fn status_open() -> Seq<char> {
    seq!['o', 'p', 'e', 'n']
}

/// The status word of a completed row.
pub open spec fn status_completed() -> Seq<char> {
    seq!['c', 'o', 'm', 'p', 'l', 'e', 't', 'e', 'd']
}

/// A fresh `"open"`.
pub fn open_word() -> (s: String)
    ensures
        s@ == status_open(),
{
    proof {
        reveal_strlit("open");
    }
    "open".to_owned()
}

/// A fresh `"completed"`.
pub fn completed_word() -> (s: String)
    ensures
        s@ == status_completed(),
{
    proof {
        reveal_strlit("completed");
    }
    "completed".to_owned()
}

/// The view of an optional text.
pub open spec fn opt_text(o: Option<String>) -> Option<Seq<char>> {
    match o {
        Some(s) => Some(s@),
        None => None,
    }
}

/// The view of an optional borrowed text.
pub open spec fn opt_str(o: Option<&str>) -> Option<Seq<char>> {
    match o {
        Some(s) => Some(s@),
        None => None,
    }
}

/// An owned copy of an optional borrowed text.
pub fn own_opt(o: Option<&str>) -> (r: Option<String>)
    ensures
        opt_text(r) == opt_str(o),
{
    match o {
        Some(s) => Some(s.to_owned()),
        None => None,
    }
}

/// A copy of an optional text.
pub fn copy_opt(o: &Option<String>) -> (r: Option<String>)
    ensures
        r == *o,
{
    match o {
        Some(s) => Some(s.clone()),
        None => None,
    }
}

/// Lexicographic order on texts, character by character (the order in which
/// SQLite's `BINARY` collation sorts UTF-8 text).
pub open spec fn text_le(a: Seq<char>, b: Seq<char>) -> bool
    decreases a.len(),
{
    if a.len() == 0 {
        true
    } else if b.len() == 0 {
        false
    } else if (a[0] as u32) < (b[0] as u32) {
        true
    } else if (a[0] as u32) > (b[0] as u32) {
        false
    } else {
        text_le(a.drop_first(), b.drop_first())
    }
}

/// Every text is ordered before or at itself.
pub proof fn lemma_text_le_reflexive(a: Seq<char>)
    ensures
        text_le(a, a),
    decreases a.len(),
{
    if a.len() > 0 {
        lemma_text_le_reflexive(a.drop_first());
    }
}

/// Any two texts are ordered one way or the other.
pub proof fn lemma_text_le_total(a: Seq<char>, b: Seq<char>)
    ensures
        text_le(a, b) || text_le(b, a),
    decreases a.len(),
{
    if a.len() > 0 && b.len() > 0 && (a[0] as u32) == (b[0] as u32) {
        lemma_text_le_total(a.drop_first(), b.drop_first());
    }
}

/// The text order is transitive.
pub proof fn lemma_text_le_transitive(a: Seq<char>, b: Seq<char>, c: Seq<char>)
    requires
        text_le(a, b),
        text_le(b, c),
    ensures
        text_le(a, c),
    decreases a.len(),
{
    if a.len() > 0 && b.len() > 0 && c.len() > 0 && (a[0] as u32) == (b[0] as u32) && (b[0] as u32) == (c[0] as u32) {
        lemma_text_le_transitive(a.drop_first(), b.drop_first(), c.drop_first());
    }
}

} // verus!
