use vstd::prelude::*;
use crate::text::{chars_eq, chars_of, from_chars};

verus! {

/// The space of one mounted file system.
#[derive(Debug)]
pub struct DiskUsage {
    pub name: String,
    pub mount_point: String,
    pub total_bytes: u64,
    pub available_bytes: u64,
    pub used_bytes: u64,
}

/// The characters that `char::is_whitespace` accepts: those of Unicode's
/// `White_Space` property.
pub open spec fn is_whitespace(c: char) -> bool {
    let v = c as int;
    ||| 0x09 <= v <= 0x0d
    ||| v == 0x20
    ||| v == 0x85
    ||| v == 0xa0
    ||| v == 0x1680
    ||| 0x2000 <= v <= 0x200a
    ||| v == 0x2028
    ||| v == 0x2029
    ||| v == 0x202f
    ||| v == 0x205f
    ||| v == 0x3000
}

fn is_whitespace_exec(c: char) -> (r: bool)
    ensures
        r == is_whitespace(c),
{
    ('\u{9}' <= c && c <= '\u{d}') || c == ' ' || c == '\u{85}' || c == '\u{a0}' || c == '\u{1680}'
        || ('\u{2000}' <= c && c <= '\u{200a}') || c == '\u{2028}' || c == '\u{2029}' || c
        == '\u{202f}' || c == '\u{205f}' || c == '\u{3000}'
}

/// `c` separates lines (`ws` false) or words (`ws` true).
pub open spec fn is_separator(c: char, ws: bool) -> bool {
    if ws {
        is_whitespace(c)
    } else {
        c == '\n'
    }
}

/// The pieces of `s` between separators, empty ones included.
pub open spec fn split_on(s: Seq<char>, ws: bool) -> Seq<Seq<char>>
    decreases s.len(),
{
    if s.len() == 0 {
        seq![Seq::empty()]
    } else {
        let r = split_on(s.drop_last(), ws);
        if is_separator(s.last(), ws) {
            r.push(Seq::empty())
        } else {
            r.update(r.len() - 1, r.last().push(s.last()))
        }
    }
}

/// The pieces that are not empty, in order.
pub open spec fn non_empty(pieces: Seq<Seq<char>>) -> Seq<Seq<char>>
    decreases pieces.len(),
{
    if pieces.len() == 0 {
        pieces
    } else if pieces.last().len() == 0 {
        non_empty(pieces.drop_last())
    } else {
        non_empty(pieces.drop_last()).push(pieces.last())
    }
}

/// The words of a line, as `str::split_whitespace` gives them.
pub open spec fn words_of(line: Seq<char>) -> Seq<Seq<char>> {
    non_empty(split_on(line, true))
}

/// A device path: it begins with "/dev/".
pub open spec fn is_device(w: Seq<char>) -> bool {
    w.len() >= 5 && w.take(5) == seq!['/', 'd', 'e', 'v', '/']
}

/// The mount points of a mount table, one line per mount with the device
/// first and the mount point second: those of devices, each once, in the
/// order of their first line.
pub open spec fn mount_list(lines: Seq<Seq<char>>) -> Seq<Seq<char>>
    decreases lines.len(),
{
    if lines.len() == 0 {
        Seq::empty()
    } else {
        let acc = mount_list(lines.drop_last());
        let w = words_of(lines.last());
        if w.len() >= 2 && is_device(w[0]) && !acc.contains(w[1]) {
            acc.push(w[1])
        } else {
            acc
        }
    }
}

/// The texts of a sequence of character vectors.
pub open spec fn texts(v: Seq<Vec<char>>) -> Seq<Seq<char>> {
    Seq::new(v.len(), |i: int| v[i]@)
}

/// The texts of a sequence of strings.
pub open spec fn string_texts(v: Seq<String>) -> Seq<Seq<char>> {
    Seq::new(v.len(), |i: int| v[i]@)
}

fn split_chars(s: &[char], ws: bool) -> (r: Vec<Vec<char>>)
    ensures
        texts(r@) == split_on(s@, ws),
{
    let mut r: Vec<Vec<char>> = Vec::new();
    r.push(Vec::new());
    assert(texts(r@) =~= split_on(s@.take(0), ws));
    let n = s.len();
    for i in 0..n
        invariant
            n == s@.len(),
            r@.len() > 0,
            texts(r@) == split_on(s@.take(i as int), ws),
    {
        assert(s@.take(i + 1).drop_last() =~= s@.take(i as int));
        let c = s[i];
        let ghost before = texts(r@);
        if is_whitespace_exec(c) && ws || c == '\n' && !ws {
            r.push(Vec::new());
            assert(texts(r@) =~= before.push(Seq::empty()));
        } else {
            let mut w = r.pop().unwrap();
            w.push(c);
            r.push(w);
            assert(texts(r@) =~= before.update(before.len() - 1, before.last().push(c)));
        }
    }
    assert(s@.take(n as int) =~= s@);
    r
}

/// The positions of the non-empty pieces, in order.
fn non_empty_positions(pieces: &Vec<Vec<char>>) -> (r: Vec<usize>)
    ensures
        forall|k: int| 0 <= k < r@.len() ==> #[trigger] r@[k] < pieces@.len(),
        non_empty(texts(pieces@)) == Seq::new(r@.len(), |k: int| pieces@[r@[k] as int]@),
{
    let n = pieces.len();
    let mut r: Vec<usize> = Vec::new();
    let ghost all = texts(pieces@);
    for i in 0..n
        invariant
            n == pieces@.len(),
            all == texts(pieces@),
            forall|k: int| 0 <= k < r@.len() ==> #[trigger] r@[k] < i,
            non_empty(all.take(i as int)) == Seq::new(r@.len(), |k: int| pieces@[r@[k] as int]@),
    {
        assert(all.take(i + 1).drop_last() =~= all.take(i as int));
        assert(all.take(i + 1).last() == pieces@[i as int]@);
        let ghost before = r@;
        if pieces[i].len() > 0 {
            r.push(i);
            assert(Seq::new(r@.len(), |k: int| pieces@[r@[k] as int]@) =~= Seq::new(
                before.len(),
                |k: int| pieces@[before[k] as int]@,
            ).push(pieces@[i as int]@));
        }
    }
    assert(all.take(n as int) =~= all);
    r
}

/// Whether `w` begins with "/dev/".
fn is_device_exec(w: &Vec<char>) -> (r: bool)
    ensures
        r == is_device(w@),
{
    if w.len() < 5 {
        return false;
    }
    let r = w[0] == '/' && w[1] == 'd' && w[2] == 'e' && w[3] == 'v' && w[4] == '/';
    assert(r ==> w@.take(5) =~= seq!['/', 'd', 'e', 'v', '/']);
    assert(w@.take(5) == seq!['/', 'd', 'e', 'v', '/'] ==> w@.take(5)[1] == 'd');
    r
}

/// Whether `list` holds `w`.
fn holds_text(list: &Vec<Vec<char>>, w: &Vec<char>) -> (r: bool)
    ensures
        r == texts(list@).contains(w@),
{
    let n = list.len();
    for i in 0..n
        invariant
            n == list@.len(),
            forall|k: int| 0 <= k < i ==> list@[k]@ != w@,
    {
        if chars_eq(list[i].as_slice(), w.as_slice()) {
            assert(texts(list@)[i as int] == w@);
            return true;
        }
    }
    assert forall|k: int| 0 <= k < texts(list@).len() implies texts(list@)[k] != w@ by {
        assert(texts(list@)[k] == list@[k]@);
    }
    false
}

/// The mount points of the devices in a mount table such as `/proc/mounts`:
/// each line's second word where its first begins with "/dev/", each mount
/// point once, in the order of its first line.
pub fn mount_points(content: &str) -> (r: Vec<String>)
    ensures
        string_texts(r@) == mount_list(split_on(content@, false)),
{
    let chars = chars_of(content);
    let lines = split_chars(chars.as_slice(), false);
    let ghost ls = texts(lines@);
    let n = lines.len();
    let mut found: Vec<Vec<char>> = Vec::new();
    let mut r: Vec<String> = Vec::new();
    for i in 0..n
        invariant
            n == lines@.len(),
            ls == texts(lines@),
            ls == split_on(content@, false),
            texts(found@) == mount_list(ls.take(i as int)),
            string_texts(r@) == texts(found@),
    {
        assert(ls.take(i + 1).drop_last() =~= ls.take(i as int));
        assert(ls.take(i + 1).last() == lines@[i as int]@);
        let pieces = split_chars(lines[i].as_slice(), true);
        let pos = non_empty_positions(&pieces);
        let ghost w = words_of(lines@[i as int]@);
        if pos.len() >= 2 {
            let dev = &pieces[pos[0]];
            let mount = &pieces[pos[1]];
            assert(w[0] == dev@ && w[1] == mount@);
            if is_device_exec(dev) && !holds_text(&found, mount) {
                let m = from_chars(mount.as_slice());
                let ghost bf = texts(found@);
                let ghost br = string_texts(r@);
                found.push(from_slice(mount.as_slice()));
                r.push(m);
                assert(texts(found@) =~= bf.push(mount@));
                assert(string_texts(r@) =~= br.push(mount@));
            }
        }
    }
    assert(ls.take(n as int) =~= ls);
    r
}

fn from_slice(s: &[char]) -> (v: Vec<char>)
    ensures
        v@ == s@,
{
    let mut v: Vec<char> = Vec::new();
    let n = s.len();
    for i in 0..n
        invariant
            n == s@.len(),
            v@ == s@.take(i as int),
    {
        v.push(s[i]);
        assert(s@.take(i + 1) =~= s@.take(i as int).push(s@[i as int]));
    }
    assert(s@.take(n as int) =~= s@);
    v
}

/// The usage of the file system mounted at `path` from its block counts: the
/// total is `blocks` blocks of `frsize` bytes, the available space `bavail`
/// such blocks, and the rest is used. `None` where a product exceeds
/// `u64::MAX` or more is available than there is in all.
pub fn disk_usage_from_stats(path: &str, blocks: u64, bavail: u64, frsize: u64) -> (r: Option<DiskUsage>)
    ensures
        r is Some <==> blocks * frsize <= u64::MAX && bavail * frsize <= u64::MAX && bavail * frsize
            <= blocks * frsize,
        r matches Some(d) ==> {
            &&& d.name@ == path@
            &&& d.mount_point@ == path@
            &&& d.total_bytes == blocks * frsize
            &&& d.available_bytes == bavail * frsize
            &&& d.used_bytes == blocks * frsize - bavail * frsize
        },
{
    let total = match blocks.checked_mul(frsize) {
        Some(t) => t,
        None => return None,
    };
    let available = match bavail.checked_mul(frsize) {
        Some(a) => a,
        None => return None,
    };
    if available > total {
        return None;
    }
    Some(DiskUsage {
        name: String::from_str(path),
        mount_point: String::from_str(path),
        total_bytes: total,
        available_bytes: available,
        used_bytes: total - available,
    })
}

} // verus!
