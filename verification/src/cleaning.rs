//! Cleaning what a model wrote: thoughts, headers and control tokens are taken
//! out.

use vstd::prelude::*;

use crate::blocks::block;
use crate::blocks::find_block;
use crate::blocks::lemma_block;
use crate::blocks::pairs_view;
use crate::text::chars_of;
use crate::text::copy_chars;
use crate::text::cut;
use crate::text::cut_out;
use crate::text::find;
use crate::text::find_from;
use crate::text::lemma_find_from;
use crate::text::replace_all;
use crate::text::replaced;
use crate::text::search;
use crate::text::search_from;

verus! {

/// The tags around what a model says to itself.
pub open spec fn channel_tags() -> Seq<(Seq<char>, Seq<char>)> {
    seq![
        ("to=self<|message|>"@, "<|eom|>"@),
        ("to=self<|message|>"@, "<|eot|>"@),
        ("to=self<|message|>"@, "<|start|>"@),
        ("<|start|>assistant to=self<|message|>"@, "<|eom|>"@),
        ("<|start|>assistant to=self<|message|>"@, "<|eot|>"@),
        ("<|start|>assistant to=self<|message|>"@, "<|start|>"@),
        ("<|channel>thought\n"@, "<channel|>"@),
        ("<|channel>thought"@, "<channel|>"@),
        ("<|channel|>thought\n"@, "<|end|>"@),
        ("<|channel|>thought"@, "<|end|>"@),
        ("<|channel|>thought\n"@, "<channel|>"@),
        ("<|channel|>thought"@, "<channel|>"@),
        ("<|channel|>analysis\n"@, "<|end|>"@),
        ("<|channel|>analysis"@, "<|end|>"@),
        ("<|channel|>commentary\n"@, "<|end|>"@),
        ("<|channel|>commentary"@, "<|end|>"@),
        ("<thought>"@, "</thought>"@),
        ("<think>"@, "</think>"@),
    ]
}

/// Control tokens that may be left over.
pub open spec fn stray_tokens() -> Seq<Seq<char>> {
    seq![
        "<|channel|>final<|message|>"@,
        "<|channel|>final"@,
        "<|start|>assistant"@,
        "<|start|>"@,
        "<|end|>"@,
        "<|return|>"@,
        "<|call|>"@,
        "<|message|>"@,
        "<|header_start|>assistant<|header_end|>"@,
        "<|header_start|>"@,
        "<|header_end|>"@,
        "<|eot|>"@,
        "<|im_start|>assistant"@,
        "<|im_start|>"@,
        "<|im_end|>"@,
        "to=user"@,
        "to=self"@,
        "<atem:function_calls>"@,
        "</atem:function_calls>"@,
    ]
}

/// `s` without the blocks between two tags; a tag that is not closed is taken out
/// alone.
pub open spec fn without_blocks(s: Seq<char>, open: Seq<char>, close: Seq<char>) -> Seq<char>
    decreases s.len(),
{
    match find(s, open) {
        Some(from) if open.len() > 0 => {
            proof {
                lemma_find_from(s, open, 0);
                lemma_block(s, open, close);
            }
            match block(s, open, close) {
                Some((_, _, to)) => without_blocks(cut(s, from, to), open, close),
                None => without_blocks(cut(s, from, from + open.len()), open, close),
            }
        },
        _ => s,
    }
}

/// `s` without the blocks between each pair of tags, pair by pair.
pub open spec fn without_channels(s: Seq<char>, tags: Seq<(Seq<char>, Seq<char>)>) -> Seq<char>
    decreases tags.len(),
{
    if tags.len() == 0 {
        s
    } else {
        without_channels(without_blocks(s, tags[0].0, tags[0].1), tags.skip(1))
    }
}

/// Where a header that begins with `to=` at `from` ends: after the next
/// `<|message|>`, or else after the next line break, or else with the text.
pub open spec fn header_end(s: Seq<char>, from: int) -> int {
    match find_from(s, "<|message|>"@, from) {
        Some(i) => i + "<|message|>"@.len(),
        None => match find_from(s, seq!['\n'], from) {
            Some(i) => i + 1,
            None => s.len() as int,
        },
    }
}

/// A header ends in the text, after its beginning.
pub proof fn lemma_header_end(s: Seq<char>, from: int)
    requires
        0 <= from < s.len(),
    ensures
        from < header_end(s, from) <= s.len(),
{
    reveal_strlit("<|message|>");
    lemma_find_from(s, "<|message|>"@, from);
    lemma_find_from(s, seq!['\n'], from);
}

/// `s` without headers that begin with `to=`.
pub open spec fn without_headers(s: Seq<char>) -> Seq<char>
    decreases s.len(),
{
    match find(s, "to="@) {
        Some(from) => {
            proof {
                reveal_strlit("to=");
                lemma_find_from(s, "to="@, 0);
                lemma_header_end(s, from);
            }
            without_headers(cut(s, from, header_end(s, from)))
        },
        None => s,
    }
}

/// `s` without each of the tokens, token by token.
pub open spec fn without_tokens(s: Seq<char>, tokens: Seq<Seq<char>>) -> Seq<char>
    decreases tokens.len(),
{
    if tokens.len() == 0 {
        s
    } else {
        without_tokens(replace_all(s, tokens[0], Seq::empty()), tokens.skip(1))
    }
}

/// What a client gets to see of a text: no thought channels, no headers, no
/// control tokens.
pub open spec fn visible(s: Seq<char>) -> Seq<char> {
    without_tokens(without_headers(without_channels(s, channel_tags())), stray_tokens())
}

/// The texts of a list of strings.
pub open spec fn strs_view(list: Seq<&str>) -> Seq<Seq<char>> {
    Seq::new(list.len(), |i: int| list[i]@)
}

/// Takes the blocks between two tags out of a text.
fn drop_blocks(s: Vec<char>, open: &str, close: &str) -> (r: Vec<char>)
    ensures
        r@ == without_blocks(s@, open@, close@),
{
    let head = chars_of(open);
    let mut text = s;
    if head.len() == 0 {
        return text;
    }
    loop
        invariant
            head@ == open@,
            open@.len() > 0,
            without_blocks(s@, open@, close@) == without_blocks(text@, open@, close@),
        decreases text@.len(),
    {
        match find_block(text.as_slice(), open, close) {
            Some((from, _, _, to)) => {
                text = cut_out(text.as_slice(), from, to);
            },
            None => match search_from(text.as_slice(), head.as_slice(), 0) {
                Some(from) => {
                    text = cut_out(text.as_slice(), from, from + head.len());
                },
                None => {
                    return text;
                },
            },
        }
    }
}

/// The tags around what a model says to itself.
fn channel_patterns() -> (r: Vec<(&'static str, &'static str)>)
    ensures
        pairs_view(r@) == channel_tags(),
{
    let pairs: Vec<(&'static str, &'static str)> = vec![
        ("to=self<|message|>", "<|eom|>"),
        ("to=self<|message|>", "<|eot|>"),
        ("to=self<|message|>", "<|start|>"),
        ("<|start|>assistant to=self<|message|>", "<|eom|>"),
        ("<|start|>assistant to=self<|message|>", "<|eot|>"),
        ("<|start|>assistant to=self<|message|>", "<|start|>"),
        ("<|channel>thought\n", "<channel|>"),
        ("<|channel>thought", "<channel|>"),
        ("<|channel|>thought\n", "<|end|>"),
        ("<|channel|>thought", "<|end|>"),
        ("<|channel|>thought\n", "<channel|>"),
        ("<|channel|>thought", "<channel|>"),
        ("<|channel|>analysis\n", "<|end|>"),
        ("<|channel|>analysis", "<|end|>"),
        ("<|channel|>commentary\n", "<|end|>"),
        ("<|channel|>commentary", "<|end|>"),
        ("<thought>", "</thought>"),
        ("<think>", "</think>"),
    ];
    proof {
        assert(pairs_view(pairs@) =~= channel_tags());
    }
    pairs
}

/// Control tokens that may be left over.
fn stray_list() -> (r: Vec<&'static str>)
    ensures
        strs_view(r@) == stray_tokens(),
{
    let tokens: Vec<&'static str> = vec![
        "<|channel|>final<|message|>",
        "<|channel|>final",
        "<|start|>assistant",
        "<|start|>",
        "<|end|>",
        "<|return|>",
        "<|call|>",
        "<|message|>",
        "<|header_start|>assistant<|header_end|>",
        "<|header_start|>",
        "<|header_end|>",
        "<|eot|>",
        "<|im_start|>assistant",
        "<|im_start|>",
        "<|im_end|>",
        "to=user",
        "to=self",
        "<atem:function_calls>",
        "</atem:function_calls>",
    ];
    proof {
        assert(strs_view(tokens@) =~= stray_tokens());
    }
    tokens
}

/// Takes the headers that begin with `to=` out of a text.
fn drop_headers(s: Vec<char>) -> (r: Vec<char>)
    ensures
        r@ == without_headers(s@),
{
    proof {
        reveal_strlit("to=");
        reveal_strlit("<|message|>");
        reveal_strlit("\n");
        assert("\n"@ =~= seq!['\n']);
    }
    let mut text = s;
    loop
        invariant
            "to="@.len() == 3,
            "<|message|>"@.len() == 11,
            "\n"@ == seq!['\n'],
            without_headers(s@) == without_headers(text@),
        decreases text@.len(),
    {
        let n: usize = text.len();
        match search(text.as_slice(), "to=", 0) {
            Some(from) => {
                proof {
                    lemma_header_end(text@, from as int);
                }
                let to: usize = match search(text.as_slice(), "<|message|>", from) {
                    Some(i) => i + 11,
                    None => match search(text.as_slice(), "\n", from) {
                        Some(i) => i + 1,
                        None => n,
                    },
                };
                text = cut_out(text.as_slice(), from, to);
            },
            None => {
                return text;
            },
        }
    }
}

/// Strips thought channels and control tokens from what a model wrote.
pub fn strip_channel_tags(s: &[char]) -> (r: Vec<char>)
    ensures
        r@ == visible(s@),
{
    let mut text = copy_chars(s);
    let pairs = channel_patterns();
    let ghost tags = channel_tags();
    let mut i: usize = 0;
    proof {
        assert(tags.skip(0) =~= tags);
    }
    while i < pairs.len()
        invariant
            pairs_view(pairs@) == tags,
            i <= pairs@.len(),
            without_channels(s@, tags) == without_channels(text@, tags.skip(i as int)),
        decreases pairs@.len() - i,
    {
        let (open, close) = pairs[i];
        proof {
            assert(tags[i as int] == (open@, close@));
            assert(tags.skip(i as int)[0] == tags[i as int]);
            assert(tags.skip(i as int).skip(1) =~= tags.skip(i + 1));
        }
        text = drop_blocks(text, open, close);
        i = i + 1;
    }
    text = drop_headers(text);
    let ghost bare = text@;
    let tokens = stray_list();
    let ghost marks = stray_tokens();
    let mut k: usize = 0;
    proof {
        assert(marks.skip(0) =~= marks);
        reveal_strlit("");
        assert(""@ =~= Seq::<char>::empty());
    }
    while k < tokens.len()
        invariant
            ""@ == Seq::<char>::empty(),
            strs_view(tokens@) == marks,
            k <= tokens@.len(),
            without_tokens(bare, marks) == without_tokens(text@, marks.skip(k as int)),
        decreases tokens@.len() - k,
    {
        let token = tokens[k];
        proof {
            assert(marks[k as int] == token@);
            assert(marks.skip(k as int)[0] == marks[k as int]);
            assert(marks.skip(k as int).skip(1) =~= marks.skip(k + 1));
        }
        text = replaced(text.as_slice(), token, "");
        k = k + 1;
    }
    text
}

} // verus!
