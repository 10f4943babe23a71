//! Unix paths, by their components.

use vstd::prelude::*;
use vstd::string::*;
use crate::text::chars::{chars_of, copied, same_text, texts};
use crate::text::search::{find_char, lemma_find_char};
use crate::text::split::{joined, pieces, pieces_from, split_text};

verus! {

/// The components among the pieces of a path: the empty pieces are none, and a
/// dot is one only where the path begins with it.
pub open spec fn piece_components(parts: Seq<Seq<char>>) -> Seq<Seq<char>>
    decreases parts.len(),
{
    if parts.len() == 0 {
        Seq::empty()
    } else {
        let p = parts.last();
        let before = piece_components(parts.drop_last());
        if p.len() > 0 && (p != "."@ || parts.len() == 1) {
            before.push(p)
        } else {
            before
        }
    }
}

pub open spec fn is_absolute(s: Seq<char>) -> bool {
    s.len() > 0 && s[0] == '/'
}

/// The components of a path. The root of an absolute path is the component `/`.
pub open spec fn components(s: Seq<char>) -> Seq<Seq<char>> {
    if is_absolute(s) {
        seq!["/"@] + piece_components(pieces(s, '/'))
    } else {
        piece_components(pieces(s, '/'))
    }
}

/// The components without the dots.
pub open spec fn without_dots(c: Seq<Seq<char>>) -> Seq<Seq<char>>
    decreases c.len(),
{
    if c.len() == 0 {
        c
    } else if c.last() == "."@ {
        without_dots(c.drop_last())
    } else {
        without_dots(c.drop_last()).push(c.last())
    }
}

/// The path climbs to a parent directory somewhere.
pub open spec fn climbs(c: Seq<Seq<char>>) -> bool {
    c.contains(".."@)
}

/// One path begins with all the components of another.
pub open spec fn begins_with(c: Seq<Seq<char>>, root: Seq<Seq<char>>) -> bool {
    root.len() <= c.len() && c.take(root.len() as int) == root
}

/// The text of a path with these components.
pub open spec fn path_text(c: Seq<Seq<char>>) -> Seq<char> {
    if c.len() > 0 && c[0] == "/"@ {
        "/"@ + joined(c.skip(1), "/"@)
    } else {
        joined(c, "/"@)
    }
}

/// The components of a path.
pub fn split_path(path: &str) -> (r: Vec<String>)
    ensures
        texts(r@) == components(path@),
{
    let parts: Vec<String> = split_text(path, '/');
    let ghost all = texts(parts@);
    let first: Vec<char> = chars_of(path);
    let mut r: Vec<String> = Vec::new();
    if first.len() > 0 && first[0] == '/' {
        r.push("/".to_owned());
    }
    let ghost root = texts(r@);
    assert(root =~= if is_absolute(path@) {
        seq!["/"@]
    } else {
        Seq::empty()
    });
    let mut i: usize = 0;
    assert(all.take(0) =~= Seq::empty());
    assert(texts(r@) =~= root + piece_components(all.take(0)));
    while i < parts.len()
        invariant
            i <= parts@.len(),
            all == texts(parts@),
            texts(r@) == root + piece_components(all.take(i as int)),
        decreases parts@.len() - i,
    {
        assert(all.take(i + 1).drop_last() =~= all.take(i as int));
        assert(all[i as int] == parts@[i as int]@);
        let p: &str = parts[i].as_str();
        if p.unicode_len() > 0 && (!same_text(p, ".") || i == 0) {
            let ghost before = texts(r@);
            let part: String = p.to_owned();
            r.push(part);
            assert(texts(r@) =~= before.push(part@));
            assert(texts(r@) =~= root + piece_components(all.take(i + 1)));
        }
        i += 1;
    }
    assert(all.take(i as int) =~= all);
    assert(texts(r@) =~= components(path@));
    r
}

/// The components without the dots.
pub fn drop_dots(c: &Vec<String>, from: usize) -> (r: Vec<String>)
    requires
        from <= c@.len(),
    ensures
        texts(r@) == without_dots(texts(c@).skip(from as int)),
{
    let ghost all = texts(c@).skip(from as int);
    let mut r: Vec<String> = Vec::new();
    let mut i: usize = from;
    assert(all.take(0) =~= Seq::empty());
    assert(texts(r@) =~= Seq::empty());
    while i < c.len()
        invariant
            from <= i <= c@.len(),
            all == texts(c@).skip(from as int),
            texts(r@) == without_dots(all.take(i - from)),
        decreases c@.len() - i,
    {
        assert(all.take(i + 1 - from).drop_last() =~= all.take(i - from));
        assert(all[i - from] == c@[i as int]@);
        if !same_text(c[i].as_str(), ".") {
            let ghost before = texts(r@);
            let part: String = copied(&c[i]);
            r.push(part);
            assert(texts(r@) =~= before.push(part@));
        }
        i += 1;
    }
    assert(all.take(i - from) =~= all);
    r
}

/// Whether a component climbs to a parent directory.
pub fn has_parent(c: &Vec<String>) -> (r: bool)
    ensures
        r == climbs(texts(c@)),
{
    let mut i: usize = 0;
    while i < c.len()
        invariant
            i <= c@.len(),
            forall|j: int| 0 <= j < i ==> #[trigger] texts(c@)[j] != ".."@,
        decreases c@.len() - i,
    {
        if same_text(c[i].as_str(), "..") {
            assert(texts(c@)[i as int] == ".."@);
            return true;
        }
        i += 1;
    }
    false
}

/// Whether one path begins with all the components of another.
pub fn starts_at(c: &Vec<String>, root: &Vec<String>) -> (r: bool)
    ensures
        r == begins_with(texts(c@), texts(root@)),
{
    if root.len() > c.len() {
        return false;
    }
    let mut i: usize = 0;
    while i < root.len()
        invariant
            i <= root@.len() <= c@.len(),
            forall|j: int| 0 <= j < i ==> #[trigger] texts(c@)[j] == texts(root@)[j],
        decreases root@.len() - i,
    {
        if !same_text(c[i].as_str(), root[i].as_str()) {
            assert(texts(c@)[i as int] != texts(root@)[i as int]);
            assert(texts(c@).take(root@.len() as int)[i as int] == texts(c@)[i as int]);
            return false;
        }
        assert(texts(c@)[i as int] == texts(root@)[i as int]);
        i += 1;
    }
    assert(texts(c@).take(root@.len() as int) =~= texts(root@));
    true
}

/// The same texts.
pub fn same_components(a: &Vec<String>, b: &Vec<String>) -> (r: bool)
    ensures
        r == (texts(a@) == texts(b@)),
{
    if a.len() != b.len() {
        assert(texts(a@).len() != texts(b@).len());
        return false;
    }
    let r: bool = starts_at(a, b);
    assert(texts(a@).take(b@.len() as int) =~= texts(a@));
    r
}

proof fn lemma_find_char_in_front(a: Seq<char>, b: Seq<char>, c: char, from: int)
    requires
        0 <= from <= a.len(),
    ensures
        match find_char(a, c, from) {
            Some(k) => find_char(a + seq![c] + b, c, from) == Some(k),
            None => find_char(a + seq![c] + b, c, from) == Some(a.len() as int),
        },
    decreases a.len() - from,
{
    let all = a + seq![c] + b;
    if from < a.len() {
        assert(all[from] == a[from]);
        if a[from] != c {
            lemma_find_char_in_front(a, b, c, from + 1);
        }
    } else {
        assert(all[from] == c);
    }
}

proof fn lemma_find_char_behind(a: Seq<char>, b: Seq<char>, c: char, from: int)
    requires
        0 <= from <= b.len(),
    ensures
        find_char(a + seq![c] + b, c, a.len() + 1 + from) == match find_char(b, c, from) {
            Some(k) => Some(a.len() + 1 + k),
            None => None::<int>,
        },
    decreases b.len() - from,
{
    let all = a + seq![c] + b;
    if from < b.len() {
        assert(all[a.len() + 1 + from] == b[from]);
        if b[from] != c {
            lemma_find_char_behind(a, b, c, from + 1);
        }
    }
}

proof fn lemma_pieces_behind(a: Seq<char>, b: Seq<char>, c: char, from: int)
    requires
        0 <= from <= b.len(),
    ensures
        pieces_from(a + seq![c] + b, c, a.len() + 1 + from) == pieces_from(b, c, from),
    decreases b.len() - from,
{
    let all = a + seq![c] + b;
    lemma_find_char_behind(a, b, c, from);
    lemma_find_char(b, c, from);
    match find_char(b, c, from) {
        Some(k) => {
            lemma_pieces_behind(a, b, c, k + 1);
            assert(all.subrange(a.len() + 1 + from, a.len() + 1 + k) =~= b.subrange(from, k));
        },
        None => {
            assert(all.skip(a.len() + 1 + from) =~= b.skip(from));
        },
    }
}

proof fn lemma_pieces_in_front(a: Seq<char>, b: Seq<char>, c: char, from: int)
    requires
        0 <= from <= a.len(),
    ensures
        pieces_from(a + seq![c] + b, c, from) == pieces_from(a, c, from) + pieces(b, c),
    decreases a.len() - from,
{
    let all = a + seq![c] + b;
    lemma_find_char_in_front(a, b, c, from);
    lemma_find_char(a, c, from);
    match find_char(a, c, from) {
        Some(k) => {
            lemma_pieces_in_front(a, b, c, k + 1);
            assert(all.subrange(from, k) =~= a.subrange(from, k));
            assert(seq![a.subrange(from, k)] + (pieces_from(a, c, k + 1) + pieces(b, c)) =~= seq![
                a.subrange(from, k),
            ] + pieces_from(a, c, k + 1) + pieces(b, c));
        },
        None => {
            lemma_pieces_behind(a, b, c, 0);
            assert(all.subrange(from, a.len() as int) =~= a.skip(from));
            assert(seq![a.skip(from)] + pieces(b, c) =~= pieces_from(a, c, from) + pieces(b, c));
        },
    }
}

/// The pieces of two texts with a separator between them are those of the one
/// and those of the other.
pub proof fn lemma_pieces_of_both(a: Seq<char>, b: Seq<char>, c: char)
    ensures
        pieces(a + seq![c] + b, c) == pieces(a, c) + pieces(b, c),
{
    lemma_pieces_in_front(a, b, c, 0);
}

pub proof fn lemma_components_of_both(x: Seq<Seq<char>>, y: Seq<Seq<char>>)
    requires
        x.len() > 0,
    ensures
        piece_components(x + y) == piece_components(x) + without_dots(piece_components(y)),
    decreases y.len(),
{
    if y.len() == 0 {
        assert(x + y =~= x);
        assert(piece_components(y) =~= Seq::empty());
        assert(piece_components(x) + without_dots(piece_components(y)) =~= piece_components(x));
    } else {
        lemma_components_of_both(x, y.drop_last());
        assert((x + y).drop_last() =~= x + y.drop_last());
        let p = y.last();
        let before = piece_components(y.drop_last());
        if p.len() > 0 && (p != "."@ || y.len() == 1) {
            assert(piece_components(y).drop_last() =~= before);
            assert(piece_components(x) + without_dots(piece_components(y)) =~= if p == "."@ {
                piece_components(x) + without_dots(before)
            } else {
                (piece_components(x) + without_dots(before)).push(p)
            });
        }
    }
}

/// A relative path under a directory has the directory's components and then its
/// own, without a leading dot.
pub proof fn lemma_joined_components(dir: Seq<char>, path: Seq<char>)
    requires
        !is_absolute(path),
        dir.len() > 0,
    ensures
        components(dir + seq!['/'] + path) == components(dir) + without_dots(components(path)),
{
    let all = dir + seq!['/'] + path;
    lemma_pieces_of_both(dir, path, '/');
    lemma_find_char(dir, '/', 0);
    assert(pieces(dir, '/').len() > 0);
    lemma_components_of_both(pieces(dir, '/'), pieces(path, '/'));
    assert(all[0] == dir[0]);
    assert(components(all) =~= components(dir) + without_dots(components(path)));
}

} // verus!
