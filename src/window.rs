//! Which windows the switcher offers: window titles read from their
//! properties, and the removal of windows whose title was seen before.

use vstd::prelude::*;
use vstd::utf8::{decode_utf8, valid_utf8};

verus! {

/// Whether a character is white space: the Unicode `White_Space` set.
pub open spec fn is_white_space(c: char) -> bool {
    let u = c as u32;
    (0x9 <= u <= 0xd) || u == 0x20 || u == 0x85 || u == 0xa0 || u == 0x1680 || (0x2000 <= u
        <= 0x200a) || u == 0x2028 || u == 0x2029 || u == 0x202f || u == 0x205f || u == 0x3000
}

/// A text without its leading white space.
pub open spec fn trim_start_of(s: Seq<char>) -> Seq<char>
    decreases s.len(),
{
    if s.len() > 0 && is_white_space(s[0]) {
        trim_start_of(s.drop_first())
    } else {
        s
    }
}

/// A text without its trailing white space.
pub open spec fn trim_end_of(s: Seq<char>) -> Seq<char>
    decreases s.len(),
{
    if s.len() > 0 && is_white_space(s.last()) {
        trim_end_of(s.drop_last())
    } else {
        s
    }
}

/// A text without its leading and trailing white space.
pub open spec fn trimmed_text(s: Seq<char>) -> Seq<char> {
    trim_end_of(trim_start_of(s))
}

/// Relies on `String::from_utf8`: the text that the bytes encode, exactly when
/// they are valid UTF-8.
#[verifier::external_body]
fn from_utf8(bytes: &[u8]) -> (r: Option<String>)
    ensures
        r is Some <==> valid_utf8(bytes@),
        r matches Some(s) ==> s@ == decode_utf8(bytes@),
{
    String::from_utf8(bytes.to_vec()).ok()
}

/// Relies on `str::trim`: the text without leading and trailing characters
/// of the `White_Space` set.
#[verifier::external_body]
fn trim(s: &str) -> (r: &str)
    ensures
        r@ == trimmed_text(s@),
{
    s.trim()
}

/// Relies on `String::push`: appends one character.
#[verifier::external_body]
fn push_char(s: &mut String, c: char)
    ensures
        final(s)@ == old(s)@.push(c),
{
    s.push(c)
}

/// Whether a text is empty or white space only.
pub open spec fn is_blank(s: Seq<char>) -> bool {
    trimmed_text(s).len() == 0
}

/// A byte string read as Latin-1: each byte is the character of that code.
pub open spec fn latin1_text(bytes: Seq<u8>) -> Seq<char> {
    bytes.map_values(|b: u8| b as char)
}

/// The title that an extended (UTF-8) name property gives: its text, if it
/// is UTF-8 and not blank.
pub open spec fn net_wm_title(bytes: Seq<u8>) -> Option<Seq<char>> {
    if bytes.len() == 0 {
        None
    } else {
        if valid_utf8(bytes) && !is_blank(decode_utf8(bytes)) {
            Some(decode_utf8(bytes))
        } else {
            None
        }
    }
}

/// The title that a legacy name property gives: its text as UTF-8 where that
/// reads and is not blank, else as Latin-1 if that is not blank.
pub open spec fn wm_title(bytes: Seq<u8>) -> Option<Seq<char>> {
    if bytes.len() == 0 {
        None
    } else {
        if valid_utf8(bytes) && !is_blank(decode_utf8(bytes)) {
            Some(decode_utf8(bytes))
        } else if is_blank(latin1_text(bytes)) {
            None
        } else {
            Some(latin1_text(bytes))
        }
    }
}

fn blank(s: &String) -> (r: bool)
    ensures
        r == is_blank(s@),
{
    trim(s.as_str()).unicode_len() == 0
}

/// The title in an extended (UTF-8) name property, if it has one.
pub fn title_from_net_wm_name(bytes: &[u8]) -> (r: Option<String>)
    ensures
        match net_wm_title(bytes@) {
            None => r is None,
            Some(t) => r matches Some(s) && s@ == t,
        },
{
    if bytes.len() == 0 {
        return None;
    }
    match from_utf8(bytes) {
        Some(s) => if blank(&s) {
            None
        } else {
            Some(s)
        },
        None => None,
    }
}

/// The title in a legacy name property, if it has one.
pub fn title_from_wm_name(bytes: &[u8]) -> (r: Option<String>)
    ensures
        match wm_title(bytes@) {
            None => r is None,
            Some(t) => r matches Some(s) && s@ == t,
        },
{
    if bytes.len() == 0 {
        return None;
    }
    if let Some(s) = from_utf8(bytes) {
        if !blank(&s) {
            return Some(s);
        }
    }
    let mut s = String::new();
    let mut i: usize = 0;
    while i < bytes.len()
        invariant
            i <= bytes@.len(),
            s@ == latin1_text(bytes@.subrange(0, i as int)),
        decreases bytes@.len() - i,
    {
        push_char(&mut s, bytes[i] as char);
        proof {
            assert(latin1_text(bytes@.subrange(0, i + 1)) =~= latin1_text(
                bytes@.subrange(0, i as int),
            ).push(bytes@[i as int] as char));
        }
        i = i + 1;
    }
    proof {
        assert(bytes@.subrange(0, bytes@.len() as int) =~= bytes@);
    }
    if blank(&s) {
        None
    } else {
        Some(s)
    }
}

/// The texts of a list of titles.
pub open spec fn texts(titles: Seq<String>) -> Seq<Seq<char>> {
    titles.map_values(|s: String| s@)
}

/// Window `i` stays: the window manager manages it, and no managed window
/// before it has its title.
pub open spec fn survives(titles: Seq<Seq<char>>, managed: Seq<bool>, i: int) -> bool {
    &&& managed[i]
    &&& forall|j: int| 0 <= j < i && managed[j] ==> titles[j] != titles[i]
}

/// The windows among the first `n` that stay, in their order.
pub open spec fn survivors(titles: Seq<Seq<char>>, managed: Seq<bool>, n: int) -> Seq<int>
    decreases n,
{
    if n <= 0 {
        seq![]
    } else if survives(titles, managed, n - 1) {
        survivors(titles, managed, n - 1).push(n - 1)
    } else {
        survivors(titles, managed, n - 1)
    }
}

/// The positions of the windows that stay, in order: those that the window
/// manager manages (`managed`), less any whose title a managed window before
/// it already has.
pub fn deduplicate(titles: &Vec<String>, managed: &Vec<bool>) -> (r: Vec<usize>)
    requires
        titles@.len() == managed@.len(),
    ensures
        r@.map_values(|i: usize| i as int) == survivors(
            texts(titles@),
            managed@,
            titles@.len() as int,
        ),
{
    let ghost ts = texts(titles@);
    let mut kept: Vec<usize> = Vec::new();
    let mut i: usize = 0;
    while i < titles.len()
        invariant
            i <= titles@.len(),
            titles@.len() == managed@.len(),
            ts == texts(titles@),
            kept@.map_values(|k: usize| k as int) == survivors(ts, managed@, i as int),
        decreases titles@.len() - i,
    {
        let mut duplicate = false;
        if managed[i] {
            let mut j: usize = 0;
            while j < i
                invariant
                    j <= i,
                    i < titles@.len(),
                    titles@.len() == managed@.len(),
                    ts == texts(titles@),
                    !duplicate ==> forall|k: int| 0 <= k < j && managed@[k] ==> ts[k] != ts[i as int],
                    duplicate ==> exists|k: int| 0 <= k < i && managed@[k] && ts[k] == ts[i as int],
                decreases i - j,
            {
                if managed[j] && titles[j] == titles[i] {
                    proof {
                        assert(ts[j as int] == ts[i as int]);
                    }
                    duplicate = true;
                }
                j = j + 1;
            }
            if !duplicate {
                proof {
                    assert(survives(ts, managed@, i as int));
                }
                kept.push(i);
            } else {
                proof {
                    assert(!survives(ts, managed@, i as int));
                }
            }
        }
        proof {
            let prev = kept@.map_values(|k: usize| k as int);
            assert(survivors(ts, managed@, i + 1) =~= prev);
        }
        i = i + 1;
    }
    kept
}

/// What the survivors of a deduplication are: positions in increasing order,
/// each of a window that stays.
pub proof fn lemma_survivors_ordered(titles: Seq<Seq<char>>, managed: Seq<bool>, n: int)
    ensures
        forall|k: int|
            0 <= k < survivors(titles, managed, n).len() ==> {
                let i = #[trigger] survivors(titles, managed, n)[k];
                0 <= i < n && survives(titles, managed, i)
            },
        forall|a: int, b: int|
            0 <= a < b < survivors(titles, managed, n).len() ==> survivors(titles, managed, n)[a]
                < survivors(titles, managed, n)[b],
    decreases n,
{
    if n > 0 {
        lemma_survivors_ordered(titles, managed, n - 1);
        let prev = survivors(titles, managed, n - 1);
        let cur = survivors(titles, managed, n);
        assert forall|k: int| 0 <= k < prev.len() implies cur[k] == prev[k] by {}
        if survives(titles, managed, n - 1) {
            assert(cur[prev.len() as int] == n - 1);
        }
    }
}

/// After deduplication every title appears once: no two windows that stay
/// share a title.
pub proof fn lemma_survivor_titles_distinct(titles: Seq<Seq<char>>, managed: Seq<bool>, n: int)
    ensures
        forall|a: int, b: int|
            0 <= a < b < survivors(titles, managed, n).len() ==> titles[survivors(
                titles,
                managed,
                n,
            )[a]] != titles[survivors(titles, managed, n)[b]],
{
    lemma_survivors_ordered(titles, managed, n);
    let s = survivors(titles, managed, n);
    assert forall|a: int, b: int| 0 <= a < b < s.len() implies titles[s[a]] != titles[s[b]] by {
        assert(survives(titles, managed, s[a]));
        assert(survives(titles, managed, s[b]));
    }
}

/// The window that stays for a title is the first managed window with that
/// title: every managed window has one before it, or is it.
pub proof fn lemma_first_occurrence_survives(titles: Seq<Seq<char>>, managed: Seq<bool>, i: int)
    requires
        0 <= i < managed.len(),
        titles.len() == managed.len(),
        managed[i],
    ensures
        exists|j: int| 0 <= j <= i && #[trigger] survives(titles, managed, j) && titles[j] == titles[i],
    decreases i,
{
    if !survives(titles, managed, i) {
        let j = choose|j: int| 0 <= j < i && managed[j] && titles[j] == titles[i];
        lemma_first_occurrence_survives(titles, managed, j);
        let k = choose|k: int| 0 <= k <= j && #[trigger] survives(titles, managed, k) && titles[k] == titles[j];
        assert(0 <= k <= i && survives(titles, managed, k) && titles[k] == titles[i]);
    } else {
        assert(survives(titles, managed, i));
    }
}

} // verus!
