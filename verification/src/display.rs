//! How texts are shown: one-line history previews and titles generated for saved items.
use vstd::prelude::*;

use crate::text::{chars_of, push_char, string_from_chars};

verus! {

/// The most characters of a history entry that its preview shows.
pub const HISTORY_PREVIEW_CHARS: usize = 120;

/// The most characters of the first line that a generated title keeps.
pub const TITLE_CHARS: usize = 30;

/// `t` with every carriage return and line feed turned into a space.
pub open spec fn flatten_line_breaks(t: Seq<char>) -> Seq<char> {
    t.map_values(|c: char| if c == '\r' || c == '\n' { ' ' } else { c })
}

/// The one-line preview of a history entry: line breaks become spaces, and a text longer than
/// `HISTORY_PREVIEW_CHARS` characters is cut there and marked with `…`.
pub open spec fn history_preview(t: Seq<char>) -> Seq<char> {
    let n = flatten_line_breaks(t);
    if n.len() > HISTORY_PREVIEW_CHARS {
        n.take(HISTORY_PREVIEW_CHARS as int).push('…')
    } else {
        n
    }
}

/// A preview shows the beginning of the text: each shown character is the text's character at
/// the same position, with a line break shown as a space. A text of at most
/// `HISTORY_PREVIEW_CHARS` characters is shown whole; a longer one shows exactly its first
/// `HISTORY_PREVIEW_CHARS` characters followed by `…`.
pub proof fn lemma_preview_shows_beginning(t: Seq<char>)
    ensures
        history_preview(t).len() == (if t.len() > HISTORY_PREVIEW_CHARS {
            HISTORY_PREVIEW_CHARS + 1
        } else {
            t.len() as int
        }),
        forall|i: int|
            0 <= i < t.len() && i < HISTORY_PREVIEW_CHARS ==> #[trigger] history_preview(t)[i] == (
            if t[i] == '\r' || t[i] == '\n' {
                ' '
            } else {
                t[i]
            }),
        t.len() > HISTORY_PREVIEW_CHARS ==> history_preview(t)[HISTORY_PREVIEW_CHARS as int] == '…',
{
}

/// Computes `history_preview`.
pub fn history_preview_text(text: &str) -> (r: String)
    ensures
        r@ == history_preview(text@),
{
    let cs = chars_of(text);
    let mut flat: Vec<char> = Vec::new();
    let mut i: usize = 0;
    while i < cs.len()
        invariant
            i <= cs@.len(),
            cs@ == text@,
            flat@ == flatten_line_breaks(text@).take(i as int),
        decreases cs@.len() - i,
    {
        let c = cs[i];
        let d = if c == '\r' || c == '\n' { ' ' } else { c };
        flat.push(d);
        proof {
            assert(flatten_line_breaks(text@).take(i + 1) =~= flatten_line_breaks(text@).take(i as int).push(d));
        }
        i = i + 1;
    }
    proof {
        assert(flatten_line_breaks(text@).take(i as int) =~= flatten_line_breaks(text@));
    }
    if flat.len() > HISTORY_PREVIEW_CHARS {
        let mut r = string_from_chars(flat.as_slice(), HISTORY_PREVIEW_CHARS);
        push_char(&mut r, '…');
        r
    } else {
        let r = string_from_chars(flat.as_slice(), flat.len());
        proof {
            assert(flat@.take(flat@.len() as int) =~= flat@);
        }
        r
    }
}

/// The position of the first line feed at or after `i`, or the length when there is none.
pub open spec fn line_feed_from(s: Seq<char>, i: nat) -> nat
    decreases s.len() - i,
{
    if i >= s.len() {
        s.len()
    } else if s[i as int] == '\n' {
        i
    } else {
        line_feed_from(s, i + 1)
    }
}

/// The first line of `s` as `str::lines` yields it: the text before the first line feed, without
/// a carriage return that ends it; all of `s` when there is no line feed.
pub open spec fn first_line(s: Seq<char>) -> Seq<char> {
    let k = line_feed_from(s, 0);
    let l = s.take(k as int);
    if k < s.len() && l.len() > 0 && l.last() == '\r' {
        l.drop_last()
    } else {
        l
    }
}

/// The title generated for a saved item: its first line, cut to `TITLE_CHARS` characters and
/// marked with `...` when longer.
pub open spec fn title_from_content(s: Seq<char>) -> Seq<char> {
    let l = first_line(s);
    if l.len() > TITLE_CHARS {
        l.take(TITLE_CHARS as int) + seq!['.', '.', '.']
    } else {
        l
    }
}

/// Generates a saved item's title from its content.
pub fn generate_title_from_content(content: &str) -> (r: String)
    ensures
        r@ == title_from_content(content@),
{
    let cs = chars_of(content);
    let mut k: usize = 0;
    while k < cs.len() && cs[k] != '\n'
        invariant
            k <= cs@.len(),
            cs@ == content@,
            line_feed_from(content@, 0) == line_feed_from(content@, k as nat),
        decreases cs@.len() - k,
    {
        k = k + 1;
    }
    let mut end = k;
    if k < cs.len() && k > 0 && cs[k - 1] == '\r' {
        end = k - 1;
    }
    proof {
        let l = content@.take(k as int);
        if k < cs.len() && k > 0 && cs@[k - 1] == '\r' {
            assert(l.drop_last() =~= content@.take(end as int));
        }
    }
    if end > TITLE_CHARS {
        let mut r = string_from_chars(cs.as_slice(), TITLE_CHARS);
        push_char(&mut r, '.');
        push_char(&mut r, '.');
        push_char(&mut r, '.');
        proof {
            assert(first_line(content@) =~= content@.take(end as int));
            assert(r@ =~= title_from_content(content@));
        }
        r
    } else {
        let r = string_from_chars(cs.as_slice(), end);
        proof {
            assert(first_line(content@) =~= content@.take(end as int));
        }
        r
    }
}

/// The history row to show for a state: where the remembered selection falls in a list of
/// `item_count` rows (the first row when the list is empty).
pub fn initial_selection(saved_index: i32, item_count: i32) -> (r: i32)
    ensures
        item_count > 0 ==> r == (if saved_index < 0 { 0 } else if saved_index > item_count - 1 {
            item_count - 1
        } else {
            saved_index as int
        }),
        item_count <= 0 ==> r == 0,
{
    if item_count > 0 {
        if saved_index < 0 {
            0
        } else if saved_index > item_count - 1 {
            item_count - 1
        } else {
            saved_index
        }
    } else {
        0
    }
}

} // verus!
