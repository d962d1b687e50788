//! The single-instance lock: the lock file holds the process id of the
//! running instance.

use vstd::prelude::*;
use crate::text::{
    chars_of, trim, trim_chars, parse_u32, parse_u32_spec, trim_start, trim_end, decimal,
    is_unicode_whitespace, is_ascii_digit, lemma_decimal_round_trip,
};

verus! {

/// Reads the process id stored in a lock file: the trimmed contents read as
/// a `u32`, `None` where they are not one.
pub fn parse_lock_pid(contents: &str) -> (r: Option<u32>)
    ensures
        r == parse_u32_spec(trim(contents@)),
{
    let cs = chars_of(contents);
    let t = trim_chars(&cs);
    parse_u32(&t)
}

/// A blank: a space, a tab, a line feed or a carriage return.
pub open spec fn is_blank(c: char) -> bool {
    c == ' ' || c == '\t' || c == '\n' || c == '\r'
}

proof fn lemma_trim_start_blanks(pre: Seq<char>, rest: Seq<char>)
    requires
        forall|i: int| 0 <= i < pre.len() ==> is_blank(#[trigger] pre[i]),
        rest.len() > 0,
        !is_unicode_whitespace(rest[0]),
    ensures
        trim_start(pre + rest) == rest,
    decreases pre.len(),
{
    if pre.len() == 0 {
        assert(pre + rest =~= rest);
    } else {
        assert(is_blank(pre[0]));
        assert((pre + rest)[0] == pre[0]);
        assert((pre + rest).drop_first() =~= pre.drop_first() + rest);
        assert forall|i: int| 0 <= i < pre.drop_first().len() implies is_blank(
            #[trigger] pre.drop_first()[i],
        ) by {
            assert(pre.drop_first()[i] == pre[i + 1]);
        }
        lemma_trim_start_blanks(pre.drop_first(), rest);
    }
}

proof fn lemma_trim_end_blanks(rest: Seq<char>, post: Seq<char>)
    requires
        forall|i: int| 0 <= i < post.len() ==> is_blank(#[trigger] post[i]),
        rest.len() > 0,
        !is_unicode_whitespace(rest.last()),
    ensures
        trim_end(rest + post) == rest,
    decreases post.len(),
{
    if post.len() == 0 {
        assert(rest + post =~= rest);
    } else {
        assert(is_blank(post.last()));
        assert((rest + post).last() == post.last());
        assert((rest + post).drop_last() =~= rest + post.drop_last());
        assert forall|i: int| 0 <= i < post.drop_last().len() implies is_blank(
            #[trigger] post.drop_last()[i],
        ) by {
            assert(post.drop_last()[i] == post[i]);
        }
        lemma_trim_end_blanks(rest, post.drop_last());
    }
}

/// A lock file that holds a process id written in decimal, with any spaces,
/// tabs or line breaks around it, reads back as that process id.
pub proof fn law_lock_pid_round_trip(pid: u32, before: Seq<char>, after: Seq<char>)
    requires
        forall|i: int| 0 <= i < before.len() ==> is_blank(#[trigger] before[i]),
        forall|i: int| 0 <= i < after.len() ==> is_blank(#[trigger] after[i]),
    ensures
        parse_u32_spec(trim(before + decimal(pid as nat) + after)) == Some(pid),
{
    let d = decimal(pid as nat);
    lemma_decimal_round_trip(pid as nat);
    assert(is_ascii_digit(d[0]));
    assert(is_ascii_digit(d.last()));
    assert(before + d + after =~= before + (d + after));
    assert((d + after)[0] == d[0]);
    lemma_trim_start_blanks(before, d + after);
    lemma_trim_end_blanks(d, after);
}

} // verus!
