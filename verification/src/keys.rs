//! The key under which a local file is stored remotely.

use crate::text::{chars_of, first_position};
use vstd::prelude::*;
use vstd::string::*;

verus! {

/// The two characters that separate the components of a path.
pub open spec fn is_separator(c: char) -> bool {
    c == '/' || c == '\\'
}

/// The position of the last separator among the first `end` characters of
/// `path`, or -1 where there is none.
pub open spec fn last_separator(path: Seq<char>, end: int) -> int
    decreases end,
{
    if end <= 0 {
        -1
    } else if is_separator(path[end - 1]) {
        end - 1
    } else {
        last_separator(path, end - 1)
    }
}

/// The directory part of `path`: what stands before its last separator.
pub open spec fn directory_of(path: Seq<char>) -> Seq<char> {
    let cut = last_separator(path, path.len() as int);
    if cut < 0 {
        Seq::empty()
    } else {
        path.take(cut)
    }
}

/// The file name of `path`: what stands after its last separator.
pub open spec fn file_name_of(path: Seq<char>) -> Seq<char> {
    path.skip(last_separator(path, path.len() as int) + 1)
}

/// The position of the root marker of a directory: its first forward slash,
/// or, where it has none, its first backslash; -1 where it has neither.
pub open spec fn root_marker(directory: Seq<char>) -> int {
    let forward = first_position(directory, '/', 0);
    if forward >= 0 {
        forward
    } else {
        first_position(directory, '\\', 0)
    }
}

/// The part of a directory that enters the key: what follows its root
/// marker, and nothing where it has no root marker.
pub open spec fn prefix_of(directory: Seq<char>) -> Seq<char> {
    let marker = root_marker(directory);
    if marker < 0 {
        Seq::empty()
    } else {
        directory.skip(marker + 1)
    }
}

/// `text` with each backslash replaced by a forward slash.
pub open spec fn with_forward_slashes(text: Seq<char>) -> Seq<char> {
    text.map_values(
        |c: char|
            if c == '\\' {
                '/'
            } else {
                c
            },
    )
}

/// The key under which the file at `path` is stored remotely: the prefix of
/// its directory, a slash and its file name, with forward slashes throughout.
/// A file without a directory, or directly under the root, gets a key that
/// starts with a slash.
pub open spec fn canonical_key(path: Seq<char>) -> Seq<char> {
    with_forward_slashes(prefix_of(directory_of(path)) + seq!['/'] + file_name_of(path))
}

/// Where the last separator of `chars` is.
fn find_last_separator(chars: &Vec<char>) -> (cut: Option<usize>)
    ensures
        match cut {
            Some(i) => i < chars@.len() && i == last_separator(chars@, chars@.len() as int),
            None => last_separator(chars@, chars@.len() as int) == -1,
        },
{
    let mut i = chars.len();
    while i > 0 && !(chars[i - 1] == '/' || chars[i - 1] == '\\')
        invariant
            i <= chars.len(),
            last_separator(chars@, chars@.len() as int) == last_separator(chars@, i as int),
        decreases i,
    {
        i -= 1;
    }
    if i == 0 {
        None
    } else {
        Some(i - 1)
    }
}

/// Where `c` first stands among the first `end` characters of `chars`.
fn find_first(chars: &Vec<char>, c: char, end: usize) -> (place: Option<usize>)
    requires
        end <= chars.len(),
    ensures
        match place {
            Some(i) => i < end && i == first_position(chars@.take(end as int), c, 0),
            None => first_position(chars@.take(end as int), c, 0) == -1,
        },
{
    let ghost head = chars@.take(end as int);
    let mut i: usize = 0;
    while i < end && chars[i] != c
        invariant
            i <= end <= chars.len(),
            head == chars@.take(end as int),
            first_position(head, c, 0) == first_position(head, c, i as int),
        decreases end - i,
    {
        assert(head[i as int] == chars@[i as int]);
        i += 1;
    }
    if i < end {
        assert(head[i as int] == chars@[i as int]);
        Some(i)
    } else {
        None
    }
}

/// Appends the characters of `text` from `from` up to `to`, with forward
/// slashes for backslashes. `chars` holds the characters of `text`.
fn append_with_forward_slashes(
    out: &mut String,
    text: &str,
    chars: &Vec<char>,
    from: usize,
    to: usize,
)
    requires
        chars@ == text@,
        from <= to <= chars.len(),
    ensures
        final(out)@ == old(out)@ + with_forward_slashes(chars@.subrange(from as int, to as int)),
{
    let ghost start = out@;
    let mut run: usize = from;
    let mut i: usize = from;
    proof {
        reveal_strlit("/");
        assert(with_forward_slashes(chars@.subrange(from as int, from as int)) =~= Seq::<
            char,
        >::empty());
        assert(out@ =~= start + Seq::<char>::empty());
    }
    while i < to
        invariant
            chars@ == text@,
            from <= run <= i <= to <= chars.len(),
            "/"@ == seq!['/'],
            out@ == start + with_forward_slashes(chars@.subrange(from as int, run as int)),
            forall|j: int| run <= j < i ==> chars@[j] != '\\',
        decreases to - i,
    {
        if chars[i] == '\\' {
            let ghost before = out@;
            out.append(text.substring_char(run, i));
            out.append("/");
            proof {
                assert(out@ == before + chars@.subrange(run as int, i as int) + seq!['/']);
                assert(with_forward_slashes(chars@.subrange(from as int, i + 1))
                    =~= with_forward_slashes(chars@.subrange(from as int, run as int))
                    + chars@.subrange(run as int, i as int) + seq!['/']);
                assert(out@ =~= start + with_forward_slashes(
                    chars@.subrange(from as int, i + 1),
                ));
            }
            run = i + 1;
        }
        i += 1;
    }
    let ghost before = out@;
    out.append(text.substring_char(run, to));
    proof {
        assert(with_forward_slashes(chars@.subrange(from as int, to as int))
            =~= with_forward_slashes(chars@.subrange(from as int, run as int)) + chars@.subrange(
            run as int,
            to as int,
        ));
        assert(out@ =~= start + with_forward_slashes(chars@.subrange(from as int, to as int)));
    }
}

/// Derives the key under which the file at `path` is stored remotely.
pub fn derive_key(path: &str) -> (key: String)
    ensures
        key@ == canonical_key(path@),
{
    let chars = chars_of(path);
    let n = chars.len();
    let cut = find_last_separator(&chars);
    let (dir_end, name_start) = match cut {
        Some(i) => (i, i + 1),
        None => (0, 0),
    };
    let ghost directory = directory_of(path@);
    assert(directory =~= chars@.take(dir_end as int));
    let marker = match find_first(&chars, '/', dir_end) {
        Some(i) => Some(i),
        None => find_first(&chars, '\\', dir_end),
    };
    let mut key = String::new();
    match marker {
        Some(m) => {
            append_with_forward_slashes(&mut key, path, &chars, m + 1, dir_end);
            assert(chars@.subrange(m + 1, dir_end as int) =~= prefix_of(directory));
        },
        None => {
            assert(prefix_of(directory) =~= Seq::<char>::empty());
            assert(with_forward_slashes(Seq::<char>::empty()) =~= Seq::<char>::empty());
        },
    }
    assert(key@ =~= with_forward_slashes(prefix_of(directory)));
    key.append("/");
    append_with_forward_slashes(&mut key, path, &chars, name_start, n);
    proof {
        reveal_strlit("/");
        assert(chars@.subrange(name_start as int, n as int) =~= file_name_of(path@));
        assert(with_forward_slashes(seq!['/']) =~= seq!['/']);
        assert(key@ =~= with_forward_slashes(
            prefix_of(directory) + seq!['/'] + file_name_of(path@),
        ));
    }
    key
}

/// No character of `text` separates path components.
pub open spec fn separator_free(text: Seq<char>) -> bool {
    forall|i: int| 0 <= i < text.len() ==> !is_separator(#[trigger] text[i])
}

/// Behind a head, the last separator of a tail that starts with one is where
/// it is in the tail alone.
proof fn lemma_last_separator_behind(head: Seq<char>, tail: Seq<char>, end: int)
    requires
        1 <= end <= tail.len(),
        is_separator(tail[0]),
    ensures
        0 <= last_separator(tail, end) < end,
        last_separator(head + tail, head.len() + end) == head.len() + last_separator(tail, end),
    decreases end,
{
    assert((head + tail)[head.len() + end - 1] == tail[end - 1]);
    if !is_separator(tail[end - 1]) {
        lemma_last_separator_behind(head, tail, end - 1);
    }
}

/// Behind a head, a character is first found in the tail where it is first
/// found in the tail alone.
proof fn lemma_first_position_behind(head: Seq<char>, tail: Seq<char>, c: char, from: int)
    requires
        0 <= from <= tail.len(),
    ensures
        first_position(head + tail, c, head.len() + from) == if first_position(tail, c, from)
            >= 0 {
            head.len() + first_position(tail, c, from)
        } else {
            -1
        },
    decreases tail.len() - from,
{
    if from < tail.len() {
        assert((head + tail)[head.len() + from] == tail[from]);
        if tail[from] != c {
            lemma_first_position_behind(head, tail, c, from + 1);
        }
    }
}

/// A character that the head does not hold is first found behind the head.
proof fn lemma_first_position_past(head: Seq<char>, tail: Seq<char>, c: char, from: int)
    requires
        0 <= from <= head.len(),
        forall|i: int| 0 <= i < head.len() ==> head[i] != c,
    ensures
        first_position(head + tail, c, from) == if first_position(tail, c, 0) >= 0 {
            head.len() + first_position(tail, c, 0)
        } else {
            -1
        },
    decreases head.len() - from,
{
    if from < head.len() {
        assert((head + tail)[from] == head[from]);
        lemma_first_position_past(head, tail, c, from + 1);
    } else {
        lemma_first_position_behind(head, tail, c, 0);
    }
}

/// What stands before the first separator of a path does not enter its key:
/// the same files under another drive or root get the same keys.
pub proof fn law_key_ignores_the_root(root: Seq<char>, rest: Seq<char>)
    requires
        separator_free(root),
        rest.len() > 0,
        is_separator(rest[0]),
    ensures
        canonical_key(root + rest) == canonical_key(rest),
{
    let path = root + rest;
    let cut = last_separator(rest, rest.len() as int);
    lemma_last_separator_behind(root, rest, rest.len() as int);
    assert(last_separator(path, path.len() as int) == root.len() + cut);
    let inner = rest.take(cut);
    assert(directory_of(rest) == inner);
    assert(directory_of(path) =~= root + inner);
    assert(file_name_of(path) =~= file_name_of(rest));
    assert forall|i: int| 0 <= i < root.len() implies root[i] != '/' && root[i] != '\\' by {
        assert(!is_separator(root[i]));
    }
    lemma_first_position_past(root, inner, '/', 0);
    lemma_first_position_past(root, inner, '\\', 0);
    let marker = root_marker(inner);
    assert(root_marker(root + inner) == if marker >= 0 {
        root.len() + marker
    } else {
        -1
    });
    if marker >= 0 {
        lemma_first_position_bounds(inner, '/', 0);
        lemma_first_position_bounds(inner, '\\', 0);
        assert((root + inner).skip(root.len() + marker + 1) =~= inner.skip(marker + 1));
    }
    assert(prefix_of(root + inner) == prefix_of(inner));
}

/// A character is found at or after the place where the search starts and
/// within the text.
proof fn lemma_first_position_bounds(text: Seq<char>, c: char, from: int)
    requires
        0 <= from,
    ensures
        first_position(text, c, from) == -1 || from <= first_position(text, c, from) < text.len(),
    decreases text.len() - from,
{
    if from < text.len() && text[from] != c {
        lemma_first_position_bounds(text, c, from + 1);
    }
}

/// Two paths that differ only in what stands before their first separator
/// have the same key.
pub proof fn law_same_structure_same_key(root_a: Seq<char>, root_b: Seq<char>, rest: Seq<char>)
    requires
        separator_free(root_a),
        separator_free(root_b),
        rest.len() > 0,
        is_separator(rest[0]),
    ensures
        canonical_key(root_a + rest) == canonical_key(root_b + rest),
{
    law_key_ignores_the_root(root_a, rest);
    law_key_ignores_the_root(root_b, rest);
}

/// A key holds no backslash.
pub proof fn law_key_has_forward_slashes_only(path: Seq<char>)
    ensures
        forall|i: int| 0 <= i < canonical_key(path).len() ==> canonical_key(path)[i] != '\\',
{
}

} // verus!
