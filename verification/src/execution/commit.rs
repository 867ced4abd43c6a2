use vstd::prelude::*;

verus! {

/// The characters that surround a commit id in the output of
/// `git rev-parse HEAD`.
pub open spec fn is_blank(c: char) -> bool {
    c == ' ' || c == '\t' || c == '\n' || c == '\r'
}

/// `s` without its leading blanks.
pub open spec fn trim_start(s: Seq<char>) -> Seq<char>
    decreases s.len(),
{
    if s.len() > 0 && is_blank(s[0]) {
        trim_start(s.drop_first())
    } else {
        s
    }
}

/// `s` without its trailing blanks.
pub open spec fn trim_end(s: Seq<char>) -> Seq<char>
    decreases s.len(),
{
    if s.len() > 0 && is_blank(s.last()) {
        trim_end(s.drop_last())
    } else {
        s
    }
}

/// The commit id that a `git rev-parse HEAD` output names: the output
/// without surrounding blanks.
pub open spec fn commit_id(output: Seq<char>) -> Seq<char> {
    trim_end(trim_start(output))
}

proof fn lemma_trim_start(s: Seq<char>, start: int)
    requires
        0 <= start <= s.len(),
        forall|k: int| 0 <= k < start ==> is_blank(#[trigger] s[k]),
        start == s.len() || !is_blank(s[start]),
    ensures
        trim_start(s) == s.subrange(start, s.len() as int),
    decreases start,
{
    if start == 0 {
        assert(s.subrange(0, s.len() as int) =~= s);
    } else {
        let rest = s.drop_first();
        assert forall|k: int| 0 <= k < start - 1 implies is_blank(#[trigger] rest[k]) by {
            assert(rest[k] == s[k + 1]);
        }
        lemma_trim_start(rest, start - 1);
        assert(rest.subrange(start - 1, rest.len() as int) =~= s.subrange(start, s.len() as int));
    }
}

proof fn lemma_trim_end(s: Seq<char>, end: int)
    requires
        0 <= end <= s.len(),
        forall|k: int| end <= k < s.len() ==> is_blank(#[trigger] s[k]),
        end == 0 || !is_blank(s[end - 1]),
    ensures
        trim_end(s) == s.subrange(0, end),
    decreases s.len() - end,
{
    if end == s.len() {
        assert(s.subrange(0, end) =~= s);
    } else {
        let rest = s.drop_last();
        assert(is_blank(s[s.len() - 1]));
        lemma_trim_end(rest, end);
        assert(rest.subrange(0, end) =~= s.subrange(0, end));
    }
}

/// Where the commit id lies in `output`.
fn commit_bounds(output: &str) -> (bounds: (usize, usize))
    ensures
        bounds.0 <= bounds.1 <= output@.len(),
        commit_id(output@) == output@.subrange(bounds.0 as int, bounds.1 as int),
{
    let len = output.unicode_len();
    let mut start: usize = 0;
    while start < len && is_blank_char(output.get_char(start))
        invariant
            len == output@.len(),
            start <= len,
            forall|k: int| 0 <= k < start ==> is_blank(#[trigger] output@[k]),
        decreases len - start,
    {
        start = start + 1;
    }
    proof {
        lemma_trim_start(output@, start as int);
    }
    let ghost rest = output@.subrange(start as int, len as int);
    let mut end: usize = len;
    while end > start && is_blank_char(output.get_char(end - 1))
        invariant
            len == output@.len(),
            start <= end <= len,
            forall|k: int| end <= k < len ==> is_blank(#[trigger] output@[k]),
        decreases end,
    {
        end = end - 1;
    }
    proof {
        assert forall|k: int| end - start <= k < rest.len() implies is_blank(#[trigger] rest[k]) by {
            assert(rest[k] == output@[start + k]);
        }
        if end > start {
            assert(rest[end - start - 1] == output@[end - 1]);
        }
        lemma_trim_end(rest, end - start);
        assert(rest.subrange(0, end - start) =~= output@.subrange(start as int, end as int));
    }
    (start, end)
}

fn is_blank_char(c: char) -> (blank: bool)
    ensures
        blank == is_blank(c),
{
    c == ' ' || c == '\t' || c == '\n' || c == '\r'
}

/// Whether two outputs of `git rev-parse HEAD` name different commits.
pub fn head_moved(before: &str, after: &str) -> (moved: bool)
    ensures
        moved == (commit_id(before@) != commit_id(after@)),
{
    let (b0, b1) = commit_bounds(before);
    let (a0, a1) = commit_bounds(after);
    let ghost old_id = before@.subrange(b0 as int, b1 as int);
    let ghost new_id = after@.subrange(a0 as int, a1 as int);
    if b1 - b0 != a1 - a0 {
        assert(old_id.len() != new_id.len());
        return true;
    }
    let n = b1 - b0;
    let mut i: usize = 0;
    while i < n
        invariant
            n == b1 - b0 == a1 - a0,
            b0 <= b1 <= before@.len(),
            a0 <= a1 <= after@.len(),
            i <= n,
            old_id == before@.subrange(b0 as int, b1 as int),
            new_id == after@.subrange(a0 as int, a1 as int),
            old_id == commit_id(before@),
            new_id == commit_id(after@),
            forall|k: int| 0 <= k < i ==> old_id[k] == new_id[k],
        decreases n - i,
    {
        if before.get_char(b0 + i) != after.get_char(a0 + i) {
            assert(old_id[i as int] != new_id[i as int]);
            return true;
        }
        i = i + 1;
    }
    assert(old_id =~= new_id);
    false
}

} // verus!
