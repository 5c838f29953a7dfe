//! Unix paths as text.
use vstd::prelude::*;

use crate::text::{chars_of, string_of};

verus! {

/// `path` below `base`: an absolute `path` stands for itself, any other is
/// put behind `base` and a slash.
pub open spec fn joined_path(base: Seq<char>, path: Seq<char>) -> Seq<char> {
    if path.len() > 0 && path[0] == '/' {
        path
    } else if base.len() == 0 || base.last() == '/' {
        base + path
    } else {
        base + "/"@ + path
    }
}

/// `path` below `base`.
pub fn join(base: &str, path: &str) -> (out: String)
    ensures
        out@ == joined_path(base@, path@),
{
    let front = chars_of(base);
    let back = chars_of(path);
    if back.len() > 0 && back[0] == '/' {
        return path.to_owned();
    }
    let mut out = base.to_owned();
    if front.len() > 0 && front[front.len() - 1] != '/' {
        out.append("/");
    }
    out.append(path);
    out
}

/// A name that stands for itself when it is joined to a path: not empty and
/// without a slash.
pub open spec fn plain_name(name: Seq<char>) -> bool {
    name.len() > 0 && forall|i: int| 0 <= i < name.len() ==> #[trigger] name[i] != '/'
}

/// Two different plain names below the same directory give different paths.
pub proof fn law_siblings_differ(base: Seq<char>, a: Seq<char>, b: Seq<char>)
    requires
        plain_name(a),
        plain_name(b),
        a != b,
    ensures
        joined_path(base, a) != joined_path(base, b),
{
    assert(a[0] != '/' && b[0] != '/');
    let head = if base.len() == 0 || base.last() == '/' {
        base
    } else {
        base + "/"@
    };
    assert(joined_path(base, a) == head + a);
    assert(joined_path(base, b) == head + b);
    if head + a == head + b {
        assert((head + a).skip(head.len() as int) =~= a);
        assert((head + b).skip(head.len() as int) =~= b);
    }
}

/// The position of the last `c` of a text, or -1.
pub open spec fn last_index(s: Seq<char>, c: char) -> int
    decreases s.len(),
{
    if s.len() == 0 {
        -1
    } else if s.last() == c {
        s.len() - 1
    } else {
        last_index(s.drop_last(), c)
    }
}

/// A file name without its extension: what stands before its last dot,
/// unless that is nothing.
pub open spec fn file_stem(name: Seq<char>) -> Seq<char> {
    if last_index(name, '.') > 0 {
        name.take(last_index(name, '.'))
    } else {
        name
    }
}

/// The part of a path behind its last slash.
pub open spec fn file_name(path: Seq<char>) -> Seq<char> {
    path.skip(last_index(path, '/') + 1)
}

/// Where the last `c` of a text stands, and that none comes after it.
pub proof fn lemma_last_index(s: Seq<char>, c: char)
    ensures
        -1 <= last_index(s, c) < s.len(),
        last_index(s, c) >= 0 ==> s[last_index(s, c)] == c,
        forall|i: int| last_index(s, c) < i < s.len() ==> #[trigger] s[i] != c,
    decreases s.len(),
{
    if s.len() > 0 && s.last() != c {
        let front = s.drop_last();
        lemma_last_index(front, c);
        assert forall|i: int| last_index(s, c) < i < s.len() implies #[trigger] s[i] != c by {
            if i < front.len() {
                assert(front[i] == s[i]);
            }
        }
    }
}

/// The number of characters up to and with the last `c`.
fn end_of_last(text: &Vec<char>, c: char) -> (end: usize)
    ensures
        end == last_index(text@, c) + 1,
        end <= text.len(),
{
    let mut end: usize = text.len();
    assert(text@.take(end as int) =~= text@);
    while end > 0 && text[end - 1] != c
        invariant
            end <= text.len(),
            last_index(text@, c) == last_index(text@.take(end as int), c),
        decreases end,
    {
        assert(text@.take(end as int).drop_last() =~= text@.take(end - 1));
        assert(text@.take(end as int).last() == text@[end - 1]);
        end -= 1;
    }
    proof {
        if end > 0 {
            assert(text@.take(end as int).last() == text@[end - 1]);
        }
    }
    end
}

fn part(text: &Vec<char>, from: usize, to: usize) -> (out: Vec<char>)
    requires
        from <= to <= text.len(),
    ensures
        out@ == text@.subrange(from as int, to as int),
{
    let mut out: Vec<char> = Vec::new();
    let mut i: usize = from;
    while i < to
        invariant
            from <= i <= to,
            to <= text.len(),
            out@ == text@.subrange(from as int, i as int),
        decreases to - i,
    {
        out.push(text[i]);
        i += 1;
        assert(out@ =~= text@.subrange(from as int, i as int));
    }
    out
}

/// A file name without its extension.
pub fn stem_of(name: &str) -> (stem: String)
    ensures
        stem@ == file_stem(name@),
{
    let text = chars_of(name);
    let end = end_of_last(&text, '.');
    if end <= 1 {
        name.to_owned()
    } else {
        let front = part(&text, 0, end - 1);
        string_of(&front)
    }
}

/// A file name is cut before its last dot, unless that is its first character;
/// a name without such a dot is left as it is.
pub proof fn law_stem(name: &str, stem: String)
    requires
        call_ensures(stem_of, (name,), stem),
    ensures
        stem@ == file_stem(name@),
        forall|dot: int|
            0 < dot < name@.len() && #[trigger] name@[dot] == '.' && (forall|i: int|
                dot < i < name@.len() ==> #[trigger] name@[i] != '.') ==> stem@ == name@.take(dot),
        (forall|i: int| 0 < i < name@.len() ==> #[trigger] name@[i] != '.') ==> stem@ == name@,
{
    lemma_last_index(name@, '.');
    assert forall|dot: int|
        0 < dot < name@.len() && #[trigger] name@[dot] == '.' && (forall|i: int|
            dot < i < name@.len() ==> #[trigger] name@[i] != '.') implies stem@ == name@.take(
        dot,
    ) by {
        let last = last_index(name@, '.');
        if last < dot {
            assert(name@[dot] != '.');
        }
        if last > dot {
            assert(name@[last] != '.');
        }
    }
}

/// The file next to `path` that is written before it takes its place: it has
/// the extension `tmp`.
pub open spec fn temp_name(path: Seq<char>) -> Seq<char> {
    path.take(last_index(path, '/') + 1) + file_stem(file_name(path)) + ".tmp"@
}

/// The file next to `path` that is written before it takes its place.
pub fn temp_path(path: &str) -> (temp: String)
    ensures
        temp@ == temp_name(path@),
{
    let text = chars_of(path);
    let end = end_of_last(&text, '/');
    let dir = string_of(&part(&text, 0, end));
    let name = string_of(&part(&text, end, text.len()));
    dir.concat(stem_of(name.as_str()).as_str()).concat(".tmp")
}

/// An absolute path stands for itself below any directory; another one is put
/// behind the directory, with one slash between them.
pub proof fn law_path_below_a_directory(base: &str, path: &str, out: String)
    requires
        call_ensures(join, (base, path), out),
    ensures
        path@.len() > 0 && path@[0] == '/' ==> out@ == path@,
        !(path@.len() > 0 && path@[0] == '/') && base@.len() > 0 && base@.last() != '/' ==> out@
            == base@ + seq!['/'] + path@,
        !(path@.len() > 0 && path@[0] == '/') && (base@.len() == 0 || base@.last() == '/') ==> out@
            == base@ + path@,
{
    reveal_strlit("/");
    assert("/"@ =~= seq!['/']);
}

/// The file that is written before it takes the place of another is in the same
/// directory, and has the extension `tmp` in place of the other one's.
pub proof fn law_temporary_file(
    dir: Seq<char>,
    name: &str,
    stem: String,
    path: &str,
    temp: String,
)
    requires
        call_ensures(temp_path, (path,), temp),
        call_ensures(stem_of, (name,), stem),
        path@ == dir + name@,
        dir.len() == 0 || dir.last() == '/',
        forall|i: int| 0 <= i < name@.len() ==> #[trigger] name@[i] != '/',
    ensures
        temp@ == dir + stem@ + ".tmp"@,
{
    let slash = last_index(path@, '/');
    lemma_last_index(path@, '/');
    if slash >= dir.len() {
        assert(path@[slash] == name@[slash - dir.len()]);
    }
    if dir.len() > 0 {
        assert(path@[dir.len() - 1] == '/');
    }
    assert(slash == dir.len() - 1);
    assert(path@.take(slash + 1) =~= dir);
    assert(path@.skip(slash + 1) =~= name@);
}

} // verus!
