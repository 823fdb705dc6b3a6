//! Picking the FLAC files out of a folder listing and putting them in path
//! order, comparing paths component by component as `std::path::Path` does
//! for Unix paths.

use vstd::prelude::*;
use vstd::std_specs::iter::IteratorSpec;
use crate::text::{lex_lt, lemma_lex_irreflexive, lemma_lex_transitive, lemma_lex_total};

verus! {

/// The pieces of `s` between slashes, empty pieces included.
pub open spec fn split_parts(s: Seq<char>) -> Seq<Seq<char>>
    decreases s.len(),
{
    if s.len() == 0 {
        seq![Seq::empty()]
    } else {
        let p = split_parts(s.drop_last());
        if s.last() == '/' {
            p.push(Seq::empty())
        } else {
            p.update(p.len() - 1, p.last().push(s.last()))
        }
    }
}

/// A path component: its kind (1 root, 2 current folder, 3 parent folder,
/// 4 name) and, for a name, the name.
pub type Part = (u8, Seq<char>);

/// Whether a piece between slashes makes a component: empty pieces and `.`
/// do not.
pub open spec fn kept(piece: Seq<char>) -> bool {
    piece.len() > 0 && piece != seq!['.']
}

/// The component a kept piece makes.
pub open spec fn part_of(piece: Seq<char>) -> Part {
    if piece == seq!['.', '.'] {
        (3u8, Seq::empty())
    } else {
        (4u8, piece)
    }
}

/// The components the pieces make, in order.
pub open spec fn pieces_parts(ps: Seq<Seq<char>>) -> Seq<Part>
    decreases ps.len(),
{
    if ps.len() == 0 {
        Seq::empty()
    } else if kept(ps.last()) {
        pieces_parts(ps.drop_last()).push(part_of(ps.last()))
    } else {
        pieces_parts(ps.drop_last())
    }
}

/// The component before the pieces: the root for a path starting with `/`,
/// the current folder for `.` or a path starting with `./`.
pub open spec fn lead_parts(s: Seq<char>) -> Seq<Part> {
    if s.len() > 0 && s[0] == '/' {
        seq![(1u8, Seq::<char>::empty())]
    } else if s.len() > 0 && s[0] == '.' && (s.len() == 1 || s[1] == '/') {
        seq![(2u8, Seq::<char>::empty())]
    } else {
        Seq::empty()
    }
}

/// The components of path `s`.
#[verifier::opaque]
pub open spec fn components(s: Seq<char>) -> Seq<Part> {
    lead_parts(s) + pieces_parts(split_parts(s))
}

/// Order of components: by kind, then names by their characters.
pub open spec fn part_lt(a: Part, b: Part) -> bool {
    a.0 < b.0 || (a.0 == b.0 && lex_lt(a.1, b.1))
}

/// Lexicographic order of component sequences.
pub open spec fn parts_lt(a: Seq<Part>, b: Seq<Part>) -> bool
    decreases a.len(),
{
    if a.len() == 0 {
        b.len() > 0
    } else if b.len() == 0 {
        false
    } else if a[0] != b[0] {
        part_lt(a[0], b[0])
    } else {
        parts_lt(a.drop_first(), b.drop_first())
    }
}

/// Path order: by components.
#[verifier::opaque]
pub open spec fn path_lt(a: Seq<char>, b: Seq<char>) -> bool {
    parts_lt(components(a), components(b))
}

/// A file name whose extension is exactly `flac`: it ends in `.flac` and
/// something comes before that dot.
pub open spec fn flac_name(name: Seq<char>) -> bool {
    name.len() > 5 && name.subrange(name.len() - 5, name.len() as int) == seq!['.', 'f', 'l', 'a', 'c']
}

/// The path's last component is a file name with the extension `flac`.
#[verifier::opaque]
pub open spec fn has_flac_extension(p: Seq<char>) -> bool {
    let c = components(p);
    c.len() > 0 && c.last().0 == 4 && flac_name(c.last().1)
}

/// A listing entry (path, is a file) that names a FLAC file.
pub open spec fn is_flac_entry(e: (String, bool)) -> bool {
    e.1 && has_flac_extension(e.0@)
}

/// The paths of the FLAC entries among the first `n`, in listing order.
pub open spec fn flac_paths(entries: Seq<(String, bool)>, n: int) -> Seq<String>
    decreases n,
{
    if n <= 0 {
        Seq::empty()
    } else if is_flac_entry(entries[n - 1]) {
        flac_paths(entries, n - 1).push(entries[n - 1].0)
    } else {
        flac_paths(entries, n - 1)
    }
}

/// `p` is the path of one of `files`.
#[verifier::opaque]
pub open spec fn among(files: Seq<String>, p: Seq<char>) -> bool {
    exists|i: int| 0 <= i < files.len() && #[trigger] files[i]@ == p
}

/// Some entry of the listing is `p`, is a file, and has the extension `flac`.
#[verifier::opaque]
pub open spec fn listed_flac(e: Seq<(String, bool)>, p: Seq<char>) -> bool {
    exists|j: int| 0 <= j < e.len() && #[trigger] e[j].0@ == p && e[j].1 && has_flac_extension(p)
}

/// No two FLAC entries among the first `n` have the same components.
pub open spec fn flac_paths_distinct(entries: Seq<(String, bool)>, n: int) -> bool {
    forall|a: int, b: int|
        0 <= a < b < n && is_flac_entry(#[trigger] entries[a]) && is_flac_entry(#[trigger] entries[b])
            ==> components(entries[a].0@) != components(entries[b].0@)
}

proof fn lemma_split_parts_len(s: Seq<char>)
    ensures
        split_parts(s).len() >= 1,
    decreases s.len(),
{
    if s.len() > 0 {
        lemma_split_parts_len(s.drop_last());
    }
}

proof fn lemma_part_order(a: Part, b: Part, c: Part)
    ensures
        !part_lt(a, a),
        part_lt(a, b) && part_lt(b, c) ==> part_lt(a, c),
        a != b ==> part_lt(a, b) || part_lt(b, a),
        !(part_lt(a, b) && part_lt(b, a)),
{
    lemma_lex_irreflexive(a.1);
    if part_lt(a, b) && part_lt(b, c) && a.0 == b.0 && b.0 == c.0 {
        lemma_lex_transitive(a.1, b.1, c.1);
    }
    lemma_lex_total(a.1, b.1);
}

/// Component sequences are strictly and totally ordered.
pub proof fn lemma_parts_order(a: Seq<Part>, b: Seq<Part>, c: Seq<Part>)
    ensures
        !parts_lt(a, a),
        parts_lt(a, b) && parts_lt(b, c) ==> parts_lt(a, c),
        a != b ==> parts_lt(a, b) || parts_lt(b, a),
        !(parts_lt(a, b) && parts_lt(b, a)),
{
    lemma_parts_irreflexive(a);
    lemma_parts_total(a, b);
    if parts_lt(a, b) && parts_lt(b, c) {
        lemma_parts_transitive(a, b, c);
    }
}

proof fn lemma_parts_irreflexive(a: Seq<Part>)
    ensures
        !parts_lt(a, a),
    decreases a.len(),
{
    if a.len() > 0 {
        lemma_parts_irreflexive(a.drop_first());
    }
}

proof fn lemma_parts_transitive(a: Seq<Part>, b: Seq<Part>, c: Seq<Part>)
    requires
        parts_lt(a, b),
        parts_lt(b, c),
    ensures
        parts_lt(a, c),
    decreases a.len(),
{
    if a.len() > 0 && b.len() > 0 && c.len() > 0 {
        lemma_part_order(a[0], b[0], c[0]);
        lemma_part_order(a[0], c[0], b[0]);
        lemma_part_order(b[0], c[0], a[0]);
        if a[0] == b[0] && b[0] == c[0] {
            lemma_parts_transitive(a.drop_first(), b.drop_first(), c.drop_first());
        }
    }
}

proof fn lemma_parts_total(a: Seq<Part>, b: Seq<Part>)
    ensures
        a != b ==> parts_lt(a, b) || parts_lt(b, a),
        !(parts_lt(a, b) && parts_lt(b, a)),
    decreases a.len(),
{
    if a.len() > 0 && b.len() > 0 {
        lemma_part_order(a[0], b[0], b[0]);
        if a[0] == b[0] {
            lemma_parts_total(a.drop_first(), b.drop_first());
            if a != b {
                assert(a =~= seq![a[0]] + a.drop_first());
                assert(b =~= seq![b[0]] + b.drop_first());
            }
        }
    } else if a.len() == 0 && b.len() == 0 {
        assert(a =~= b);
    }
}

/// Component sequences are ordered by their first difference: a proper
/// prefix comes first, otherwise the one whose component at the first
/// differing position comes first.
pub proof fn lemma_parts_first_difference(a: Seq<Part>, b: Seq<Part>, k: int)
    requires
        0 <= k <= a.len(),
        k <= b.len(),
        a.take(k) == b.take(k),
        k == a.len() || k == b.len() || a[k] != b[k],
    ensures
        parts_lt(a, b) == ((k == a.len() && k < b.len()) || (k < a.len() && k < b.len() && part_lt(a[k], b[k]))),
    decreases k,
{
    if k > 0 {
        assert(a[0] == a.take(k)[0] && b[0] == b.take(k)[0]);
        assert(a.drop_first().take(k - 1) =~= a.take(k).drop_first());
        assert(b.drop_first().take(k - 1) =~= b.take(k).drop_first());
        lemma_parts_first_difference(a.drop_first(), b.drop_first(), k - 1);
    }
}

/// The characters `.flac`.
pub open spec fn dot_flac() -> Seq<char> {
    seq!['.', 'f', 'l', 'a', 'c']
}

/// A file name has the extension `flac` exactly when it is a nonempty stem
/// followed by `.flac`.
pub proof fn lemma_flac_name(name: Seq<char>)
    ensures
        flac_name(name) == exists|stem: Seq<char>| stem.len() > 0 && #[trigger] (stem + dot_flac()) == name,
{
    if flac_name(name) {
        let stem = name.subrange(0, name.len() - 5);
        assert(stem + dot_flac() =~= name);
    }
    if exists|stem: Seq<char>| stem.len() > 0 && #[trigger] (stem + dot_flac()) == name {
        let stem = choose|stem: Seq<char>| stem.len() > 0 && #[trigger] (stem + dot_flac()) == name;
        assert(name.subrange(name.len() - 5, name.len() as int) =~= seq!['.', 'f', 'l', 'a', 'c']);
    }
}

/// Characters without a slash extend the last piece.
proof fn lemma_split_parts_extend(s: Seq<char>, t: Seq<char>)
    requires
        forall|i: int| 0 <= i < t.len() ==> t[i] != '/',
    ensures
        split_parts(s + t) == split_parts(s).update(split_parts(s).len() - 1, split_parts(s).last() + t),
    decreases t.len(),
{
    lemma_split_parts_len(s);
    let p = split_parts(s);
    if t.len() == 0 {
        assert(s + t =~= s);
        assert(p.last() + t =~= p.last());
        assert(p.update(p.len() - 1, p.last()) =~= p);
    } else {
        let t0 = t.drop_last();
        lemma_split_parts_extend(s, t0);
        assert((s + t).drop_last() =~= s + t0);
        assert((s + t).last() == t.last());
        let q = split_parts(s + t0);
        assert(q.last() == p.last() + t0);
        assert(p.last() + t0.push(t.last()) =~= (p.last() + t0).push(t.last()));
        assert(t0.push(t.last()) =~= t);
        assert(split_parts(s + t) =~= p.update(p.len() - 1, p.last() + t));
    }
}

/// The first component does not change when more is written after a
/// nonempty path.
proof fn lemma_lead_parts_extend(s: Seq<char>, t: Seq<char>)
    requires
        s.len() > 0,
        t.len() > 0,
        t[0] == '/',
    ensures
        lead_parts(s + t) == lead_parts(s),
{
    assert((s + t)[0] == s[0]);
    if s.len() >= 2 {
        assert((s + t)[1] == s[1]);
    } else {
        assert((s + t)[1] == t[0]);
    }
}

/// A trailing slash does not change a nonempty path's components.
pub proof fn lemma_components_trailing_slash(s: Seq<char>)
    requires
        s.len() > 0,
    ensures
        components(s + seq!['/']) == components(s),
{
    reveal(components);
    lemma_split_parts_len(s);
    lemma_lead_parts_extend(s, seq!['/']);
    let t = s + seq!['/'];
    assert(t.drop_last() =~= s);
    let p = split_parts(s);
    assert(split_parts(t) == p.push(Seq::empty()));
    assert(p.push(Seq::<char>::empty()).drop_last() =~= p);
}

/// Writing `/` and a name after a nonempty path adds the name's component
/// (a parent-folder component for `..`); writing `/.` adds nothing.
pub proof fn lemma_components_append(s: Seq<char>, name: Seq<char>)
    requires
        s.len() > 0,
        forall|i: int| 0 <= i < name.len() ==> name[i] != '/',
    ensures
        kept(name) ==> components(s + seq!['/'] + name) == components(s).push(part_of(name)),
        !kept(name) ==> components(s + seq!['/'] + name) == components(s),
{
    reveal(components);
    lemma_split_parts_len(s);
    let slash = s + seq!['/'];
    assert(slash.drop_last() =~= s);
    let p = split_parts(s);
    assert(split_parts(slash) == p.push(Seq::empty()));
    lemma_split_parts_extend(slash, name);
    let q = p.push(Seq::<char>::empty());
    assert(Seq::<char>::empty() + name =~= name);
    assert(split_parts(slash + name) =~= p.push(name));
    assert(p.push(name).drop_last() =~= p);
    assert(p.push(name).last() == name);
    lemma_lead_parts_extend(s, seq!['/'] + name);
    assert(s + seq!['/'] + name =~= s + (seq!['/'] + name));
}

/// `a < b` and `b <= c` give `a < c`.
proof fn lemma_lt_le(a: Seq<Part>, b: Seq<Part>, c: Seq<Part>)
    requires
        parts_lt(a, b),
        !parts_lt(c, b),
    ensures
        parts_lt(a, c),
{
    lemma_parts_order(b, c, c);
    lemma_parts_order(a, b, c);
}

/// The components an exec key stands for.
pub open spec fn key_view(key: Seq<(u8, Vec<char>)>) -> Seq<Part> {
    key.map_values(|x: (u8, Vec<char>)| (x.0, x.1@))
}

/// The characters of `s`.
fn to_chars(s: &str) -> (v: Vec<char>)
    ensures
        v@ == s@,
{
    broadcast use vstd::string::group_string_axioms;
    let mut it = s.chars();
    let mut v: Vec<char> = Vec::new();
    loop
        invariant
            it.obeys_prophetic_iter_laws(),
            it.decrease() is Some,
            v@ + it.remaining() == s@,
        ensures
            v@ == s@,
        decreases it.decrease()->0,
    {
        let ghost before = it.remaining();
        match it.next() {
            Some(c) => {
                v.push(c);
                assert(v@ + it.remaining() =~= s@) by {
                    assert(before =~= seq![c] + it.remaining());
                }
            },
            None => {
                assert(v@ =~= s@);
                return v;
            },
        }
    }
}

/// Ends a piece: pushes the component it makes, if any.
fn finish_piece(done: &mut Vec<(u8, Vec<char>)>, piece: Vec<char>)
    ensures
        key_view(final(done)@) == (if kept(piece@) {
            key_view(old(done)@).push(part_of(piece@))
        } else {
            key_view(old(done)@)
        }),
{
    let is_dot = piece.len() == 1 && piece[0] == '.';
    proof {
        if piece@.len() == 1 && piece@[0] == '.' {
            assert(piece@ =~= seq!['.']);
        }
    }
    if piece.len() > 0 && !is_dot {
        let is_parent = piece.len() == 2 && piece[0] == '.' && piece[1] == '.';
        proof {
            if piece@.len() == 2 && piece@[0] == '.' && piece@[1] == '.' {
                assert(piece@ =~= seq!['.', '.']);
            }
        }
        if is_parent {
            done.push((3, Vec::new()));
        } else {
            done.push((4, piece));
        }
        assert(key_view(done@) =~= key_view(old(done)@).push(part_of(piece@)));
    }
}

/// The components of path `s`.
pub fn path_components(s: &str) -> (key: Vec<(u8, Vec<char>)>)
    ensures
        key_view(key@) == components(s@),
{
    let chars = to_chars(s);
    let n = chars.len();
    let mut done: Vec<(u8, Vec<char>)> = Vec::new();
    let mut piece: Vec<char> = Vec::new();
    proof {
        assert(chars@.take(0) =~= Seq::<char>::empty());
        assert(key_view(done@) =~= pieces_parts(split_parts(chars@.take(0)).drop_last()));
    }
    for i in 0..n
        invariant
            n == chars@.len(),
            split_parts(chars@.take(i as int)).len() >= 1,
            key_view(done@) == pieces_parts(split_parts(chars@.take(i as int)).drop_last()),
            piece@ == split_parts(chars@.take(i as int)).last(),
    {
        let ghost t = chars@.take(i as int);
        let ghost t1 = chars@.take(i + 1);
        proof {
            assert(t1.drop_last() =~= t);
            assert(t1.last() == chars@[i as int]);
            lemma_split_parts_len(t);
        }
        let c = chars[i];
        if c == '/' {
            let mut old_piece: Vec<char> = Vec::new();
            std::mem::swap(&mut old_piece, &mut piece);
            finish_piece(&mut done, old_piece);
            proof {
                let p = split_parts(t);
                assert(split_parts(t1) == p.push(Seq::empty()));
                assert(p.push(Seq::<char>::empty()).drop_last() =~= p);
                assert(p =~= p.drop_last().push(p.last()));
                assert(piece@ =~= Seq::<char>::empty());
            }
        } else {
            piece.push(c);
            proof {
                let p = split_parts(t);
                let q = p.update(p.len() - 1, p.last().push(c));
                assert(split_parts(t1) == q);
                assert(q.drop_last() =~= p.drop_last());
            }
        }
    }
    proof {
        assert(chars@.take(n as int) =~= chars@);
        let p = split_parts(chars@);
        assert(p =~= p.drop_last().push(p.last()));
    }
    finish_piece(&mut done, piece);
    let mut key: Vec<(u8, Vec<char>)> = Vec::new();
    if n > 0 && chars[0] == '/' {
        key.push((1, Vec::new()));
    } else if n > 0 && chars[0] == '.' && (n == 1 || chars[1] == '/') {
        key.push((2, Vec::new()));
    }
    assert(key_view(key@) =~= lead_parts(s@));
    let ghost lead = key@;
    key.append(&mut done);
    assert(key_view(key@) =~= lead_parts(s@) + pieces_parts(split_parts(s@)));
    proof {
        reveal(components);
    }
    key
}

/// Whether `a` comes before `b` in the order of their characters.
fn chars_lt(a: &Vec<char>, b: &Vec<char>) -> (r: bool)
    ensures
        r == lex_lt(a@, b@),
{
    let mut i: usize = 0;
    assert(a@.skip(0) =~= a@ && b@.skip(0) =~= b@);
    loop
        invariant
            i <= a@.len(),
            i <= b@.len(),
            lex_lt(a@, b@) == lex_lt(a@.skip(i as int), b@.skip(i as int)),
        decreases a@.len() - i,
    {
        if i == a.len() {
            return i < b.len();
        }
        if i == b.len() {
            return false;
        }
        if a[i] != b[i] {
            return a[i] < b[i];
        }
        assert(a@.skip(i as int).drop_first() =~= a@.skip(i + 1));
        assert(b@.skip(i as int).drop_first() =~= b@.skip(i + 1));
        i = i + 1;
    }
}

/// Whether path components `a` come before `b`.
pub fn key_lt(a: &Vec<(u8, Vec<char>)>, b: &Vec<(u8, Vec<char>)>) -> (r: bool)
    ensures
        r == parts_lt(key_view(a@), key_view(b@)),
{
    let ghost ka = key_view(a@);
    let ghost kb = key_view(b@);
    let mut i: usize = 0;
    assert(ka.skip(0) =~= ka && kb.skip(0) =~= kb);
    loop
        invariant
            i <= a@.len(),
            i <= b@.len(),
            ka == key_view(a@),
            kb == key_view(b@),
            parts_lt(ka, kb) == parts_lt(ka.skip(i as int), kb.skip(i as int)),
        decreases a@.len() - i,
    {
        if i == a.len() {
            return i < b.len();
        }
        if i == b.len() {
            return false;
        }
        let x = &a[i];
        let y = &b[i];
        assert(ka.skip(i as int)[0] == (x.0, x.1@));
        assert(kb.skip(i as int)[0] == (y.0, y.1@));
        if x.0 != y.0 {
            return x.0 < y.0;
        }
        if chars_lt(&x.1, &y.1) {
            proof {
                lemma_lex_irreflexive(x.1@);
            }
            return true;
        }
        if chars_lt(&y.1, &x.1) {
            return false;
        }
        proof {
            lemma_lex_total(x.1@, y.1@);
        }
        assert(ka.skip(i as int).drop_first() =~= ka.skip(i + 1));
        assert(kb.skip(i as int).drop_first() =~= kb.skip(i + 1));
        i = i + 1;
    }
}

/// Whether a path with components `key` names a file with the extension `flac`.
fn key_is_flac(key: &Vec<(u8, Vec<char>)>) -> (r: bool)
    ensures
        r == (key_view(key@).len() > 0 && key_view(key@).last().0 == 4 && flac_name(key_view(key@).last().1)),
{
    let n = key.len();
    if n == 0 {
        return false;
    }
    let last = &key[n - 1];
    if last.0 != 4 {
        return false;
    }
    let name = &last.1;
    let m = name.len();
    let r = m > 5 && name[m - 5] == '.' && name[m - 4] == 'f' && name[m - 3] == 'l' && name[m - 2] == 'a'
        && name[m - 1] == 'c';
    proof {
        let v = name@;
        if m > 5 {
            if r {
                assert(v.subrange(m - 5, m as int) =~= seq!['.', 'f', 'l', 'a', 'c']);
            } else {
                if v.subrange(m - 5, m as int) == seq!['.', 'f', 'l', 'a', 'c'] {
                    assert(v[m - 5] == v.subrange(m - 5, m as int)[0]);
                    assert(v[m - 4] == v.subrange(m - 5, m as int)[1]);
                    assert(v[m - 3] == v.subrange(m - 5, m as int)[2]);
                    assert(v[m - 2] == v.subrange(m - 5, m as int)[3]);
                    assert(v[m - 1] == v.subrange(m - 5, m as int)[4]);
                }
            }
        }
    }
    r
}

/// The components an exec key stands for.
pub open spec fn kv(key: Vec<(u8, Vec<char>)>) -> Seq<Part> {
    key_view(key@)
}

/// Keys in order: no key is below one before it.
pub open spec fn keys_sorted(keys: Seq<Vec<(u8, Vec<char>)>>) -> bool {
    forall|i: int, j: int| 0 <= i < j < keys.len() ==> !parts_lt(kv(#[trigger] keys[j]), kv(#[trigger] keys[i]))
}

/// The first position whose key is above `x`.
fn upper_bound(keys: &Vec<Vec<(u8, Vec<char>)>>, x: &Vec<(u8, Vec<char>)>) -> (p: usize)
    requires
        keys_sorted(keys@),
    ensures
        p <= keys@.len(),
        forall|i: int| 0 <= i < p ==> !parts_lt(kv(*x), kv(#[trigger] keys@[i])),
        forall|i: int| p <= i < keys@.len() ==> parts_lt(kv(*x), kv(#[trigger] keys@[i])),
{
    let mut lo: usize = 0;
    let mut hi: usize = keys.len();
    while lo < hi
        invariant
            lo <= hi <= keys@.len(),
            keys_sorted(keys@),
            forall|i: int| 0 <= i < lo ==> !parts_lt(kv(*x), kv(#[trigger] keys@[i])),
            forall|i: int| hi <= i < keys@.len() ==> parts_lt(kv(*x), kv(#[trigger] keys@[i])),
        decreases hi - lo,
    {
        let mid = lo + (hi - lo) / 2;
        if key_lt(x, &keys[mid]) {
            proof {
                assert forall|i: int| mid <= i < keys@.len() implies parts_lt(kv(*x), kv(#[trigger] keys@[i])) by {
                    if i > mid && i < hi {
                        assert(!parts_lt(kv(keys@[i]), kv(keys@[mid as int])));
                        lemma_lt_le(kv(*x), kv(keys@[mid as int]), kv(keys@[i]));
                    }
                }
            }
            hi = mid;
        } else {
            proof {
                assert forall|i: int| 0 <= i <= mid implies !parts_lt(kv(*x), kv(#[trigger] keys@[i])) by {
                    if i < mid && i >= lo && parts_lt(kv(*x), kv(keys@[i])) {
                        assert(!parts_lt(kv(keys@[mid as int]), kv(keys@[i])));
                        lemma_lt_le(kv(*x), kv(keys@[i]), kv(keys@[mid as int]));
                    }
                }
            }
            lo = mid + 1;
        }
    }
    lo
}

/// Inserting a key where everything before is not above it and everything
/// after is above it keeps the keys in order.
proof fn lemma_insert_sorted_keys(keys: Seq<Vec<(u8, Vec<char>)>>, p: int, key: Vec<(u8, Vec<char>)>)
    requires
        keys_sorted(keys),
        0 <= p <= keys.len(),
        forall|i: int| 0 <= i < p ==> !parts_lt(kv(key), kv(#[trigger] keys[i])),
        forall|i: int| p <= i < keys.len() ==> parts_lt(kv(key), kv(#[trigger] keys[i])),
    ensures
        keys_sorted(keys.insert(p, key)),
{
    let w = keys.insert(p, key);
    assert forall|i: int, j: int| 0 <= i < j < w.len() implies !parts_lt(kv(#[trigger] w[j]), kv(#[trigger] w[i])) by {
        if j < p {
            assert(w[i] == keys[i] && w[j] == keys[j]);
        } else if j == p {
            assert(w[i] == keys[i]);
        } else if i < p {
            assert(w[i] == keys[i] && w[j] == keys[j - 1]);
        } else if i == p {
            assert(w[j] == keys[j - 1]);
            lemma_parts_order(kv(key), kv(keys[j - 1]), kv(key));
        } else {
            assert(w[i] == keys[i - 1] && w[j] == keys[j - 1]);
        }
    }
}

/// With keys strictly increasing and the new key equal to none of them,
/// the insertion keeps them strictly increasing.
proof fn lemma_insert_strict_keys(keys: Seq<Vec<(u8, Vec<char>)>>, p: int, key: Vec<(u8, Vec<char>)>)
    requires
        forall|i: int, j: int| 0 <= i < j < keys.len() ==> parts_lt(kv(#[trigger] keys[i]), kv(#[trigger] keys[j])),
        forall|i: int| 0 <= i < keys.len() ==> kv(#[trigger] keys[i]) != kv(key),
        0 <= p <= keys.len(),
        forall|i: int| 0 <= i < p ==> !parts_lt(kv(key), kv(#[trigger] keys[i])),
        forall|i: int| p <= i < keys.len() ==> parts_lt(kv(key), kv(#[trigger] keys[i])),
    ensures
        forall|i: int, j: int| 0 <= i < j < keys.insert(p, key).len()
            ==> parts_lt(kv(#[trigger] keys.insert(p, key)[i]), kv(#[trigger] keys.insert(p, key)[j])),
{
    let w = keys.insert(p, key);
    assert forall|i: int, j: int| 0 <= i < j < w.len() implies parts_lt(kv(#[trigger] w[i]), kv(#[trigger] w[j])) by {
        if j < p {
            assert(w[i] == keys[i] && w[j] == keys[j]);
        } else if j == p {
            assert(w[i] == keys[i]);
            lemma_parts_order(kv(keys[i]), kv(key), kv(key));
        } else if i < p {
            assert(w[i] == keys[i] && w[j] == keys[j - 1]);
        } else if i == p {
            assert(w[j] == keys[j - 1]);
        } else {
            assert(w[i] == keys[i - 1] && w[j] == keys[j - 1]);
        }
    }
}

/// Keys strictly increasing.
pub open spec fn keys_strict(keys: Seq<Vec<(u8, Vec<char>)>>) -> bool {
    forall|i: int, j: int| 0 <= i < j < keys.len() ==> parts_lt(kv(#[trigger] keys[i]), kv(#[trigger] keys[j]))
}

/// Each key holds the components of the path beside it.
pub open spec fn keys_match(files: Seq<String>, keys: Seq<Vec<(u8, Vec<char>)>>) -> bool {
    &&& files.len() == keys.len()
    &&& forall|i: int| 0 <= i < keys.len() ==> kv(#[trigger] keys[i]) == components(files[i]@)
}

/// Puts `path`, with components `key`, into the path-ordered `files`, after
/// every path that is not above it.
fn insert_in_order(
    files: &mut Vec<String>,
    keys: &mut Vec<Vec<(u8, Vec<char>)>>,
    path: String,
    key: Vec<(u8, Vec<char>)>,
) -> (p: usize)
    requires
        keys_match(old(files)@, old(keys)@),
        keys_sorted(old(keys)@),
        kv(key) == components(path@),
    ensures
        p <= old(files)@.len(),
        final(files)@ == old(files)@.insert(p as int, path),
        final(keys)@ == old(keys)@.insert(p as int, key),
        keys_match(final(files)@, final(keys)@),
        keys_sorted(final(keys)@),
        keys_strict(old(keys)@) && (forall|i: int| 0 <= i < old(keys)@.len() ==> kv(#[trigger] old(keys)@[i]) != kv(key))
            ==> keys_strict(final(keys)@),
        forall|i: int| p <= i < old(files)@.len() ==> components(#[trigger] old(files)@[i]@) != components(path@),
{
    let p = upper_bound(keys, &key);
    proof {
        assert forall|i: int| p <= i < files@.len() implies components(#[trigger] files@[i]@) != components(path@) by {
            assert(parts_lt(kv(key), kv(keys@[i])));
            lemma_parts_order(kv(key), kv(key), kv(key));
        }
    }
    let ghost old_keys = keys@;
    let ghost old_files = files@;
    let ghost key_copy = key;
    proof {
        lemma_insert_sorted_keys(old_keys, p as int, key_copy);
        if keys_strict(old_keys) && (forall|i: int| 0 <= i < old_keys.len() ==> kv(#[trigger] old_keys[i]) != kv(key_copy)) {
            lemma_insert_strict_keys(old_keys, p as int, key_copy);
        }
    }
    files.insert(p, path);
    keys.insert(p, key);
    proof {
        assert forall|i: int| 0 <= i < keys@.len() implies kv(#[trigger] keys@[i]) == components(files@[i]@) by {
            if i < p {
                assert(keys@[i] == old_keys[i] && files@[i] == old_files[i]);
            } else if i > p {
                assert(keys@[i] == old_keys[i - 1] && files@[i] == old_files[i - 1]);
            }
        }
    }
    p
}

/// A path is among the FLAC paths of the first `k` entries exactly when one
/// of those entries is a FLAC file with that path.
proof fn lemma_flac_paths_contains(e: Seq<(String, bool)>, k: int, x: String)
    requires
        0 <= k <= e.len(),
    ensures
        flac_paths(e, k).contains(x) <==> exists|j: int| 0 <= j < k && is_flac_entry(#[trigger] e[j]) && e[j].0 == x,
    decreases k,
{
    if k > 0 {
        lemma_flac_paths_contains(e, k - 1, x);
        let prev = flac_paths(e, k - 1);
        if is_flac_entry(e[k - 1]) {
            let cur = prev.push(e[k - 1].0);
            if cur.contains(x) {
                let i = choose|i: int| 0 <= i < cur.len() && cur[i] == x;
                if i < prev.len() {
                    assert(prev[i] == x);
                }
            }
            if exists|j: int| 0 <= j < k && is_flac_entry(#[trigger] e[j]) && e[j].0 == x {
                let j = choose|j: int| 0 <= j < k && is_flac_entry(#[trigger] e[j]) && e[j].0 == x;
                if j < k - 1 {
                    let i = choose|i: int| 0 <= i < prev.len() && prev[i] == x;
                    assert(cur[i] == x);
                } else {
                    assert(cur[prev.len() as int] == x);
                }
            }
        }
    }
}

/// A path among `files`, whose multiset is that of the FLAC paths of the
/// first `k` entries, is the path of one of those entries.
proof fn lemma_file_from_entry(e: Seq<(String, bool)>, k: int, files: Seq<String>, i: int)
    requires
        0 <= k <= e.len(),
        files.to_multiset() == flac_paths(e, k).to_multiset(),
        0 <= i < files.len(),
    ensures
        exists|j: int| 0 <= j < k && is_flac_entry(#[trigger] e[j]) && e[j].0 == files[i],
{
    broadcast use vstd::seq_lib::to_multiset_contains;
    assert(files.contains(files[i]));
    assert(files.to_multiset().count(files[i]) > 0);
    assert(flac_paths(e, k).to_multiset().count(files[i]) > 0);
    lemma_flac_paths_contains(e, k, files[i]);
}

/// The path of a FLAC entry among the first `k` is among `files`.
proof fn lemma_entry_in_files(e: Seq<(String, bool)>, k: int, files: Seq<String>, j: int)
    requires
        0 <= k <= e.len(),
        files.to_multiset() == flac_paths(e, k).to_multiset(),
        0 <= j < k,
        is_flac_entry(e[j]),
    ensures
        files.contains(e[j].0),
{
    broadcast use vstd::seq_lib::to_multiset_contains;
    lemma_flac_paths_contains(e, k, e[j].0);
    assert(flac_paths(e, k).to_multiset().count(e[j].0) > 0);
    assert(files.to_multiset().count(e[j].0) > 0);
}

/// The paths of `s` whose components are `key`, in the order of `s`.
pub open spec fn with_key(s: Seq<String>, key: Seq<Part>) -> Seq<String>
    decreases s.len(),
{
    if s.len() == 0 {
        Seq::empty()
    } else if components(s.last()@) == key {
        with_key(s.drop_last(), key).push(s.last())
    } else {
        with_key(s.drop_last(), key)
    }
}

/// Inserting a path with other components leaves the paths with `key` as they were.
proof fn lemma_with_key_insert_other(s: Seq<String>, p: int, x: String, key: Seq<Part>)
    requires
        0 <= p <= s.len(),
        components(x@) != key,
    ensures
        with_key(s.insert(p, x), key) == with_key(s, key),
    decreases s.len(),
{
    if p == s.len() {
        assert(s.insert(p, x) =~= s.push(x));
        assert(s.push(x).drop_last() =~= s);
    } else {
        lemma_with_key_insert_other(s.drop_last(), p, x, key);
        let t = s.insert(p, x);
        assert(t.drop_last() =~= s.drop_last().insert(p, x));
        assert(t.last() == s.last());
    }
}

/// Inserting a path with components `key` after the last path with `key`
/// appends it to the paths with `key`.
proof fn lemma_with_key_insert_last(s: Seq<String>, p: int, x: String, key: Seq<Part>)
    requires
        0 <= p <= s.len(),
        components(x@) == key,
        forall|i: int| p <= i < s.len() ==> components(#[trigger] s[i]@) != key,
    ensures
        with_key(s.insert(p, x), key) == with_key(s, key).push(x),
    decreases s.len(),
{
    if p == s.len() {
        assert(s.insert(p, x) =~= s.push(x));
        assert(s.push(x).drop_last() =~= s);
    } else {
        assert(components(s[s.len() - 1]@) != key);
        lemma_with_key_insert_last(s.drop_last(), p, x, key);
        let t = s.insert(p, x);
        assert(t.drop_last() =~= s.drop_last().insert(p, x));
        assert(t.last() == s.last());
    }
}

/// What holds after looking at the first `k` listing entries: `files` holds
/// the FLAC paths among them in path order, `keys` their components.
#[verifier::opaque]
pub open spec fn scanned(e: Seq<(String, bool)>, k: int, files: Seq<String>, keys: Seq<Vec<(u8, Vec<char>)>>) -> bool {
    &&& keys_match(files, keys)
    &&& keys_sorted(keys)
    &&& files.to_multiset() == flac_paths(e, k).to_multiset()
    &&& forall|key: Seq<Part>| #[trigger] with_key(files, key) == with_key(flac_paths(e, k), key)
    &&& flac_paths_distinct(e, k) ==> keys_strict(keys)
}

/// Looks at listing entry `k`.
fn add_entry(files: &mut Vec<String>, keys: &mut Vec<Vec<(u8, Vec<char>)>>, entries: &Vec<(String, bool)>, k: usize)
    requires
        k < entries@.len(),
        scanned(entries@, k as int, old(files)@, old(keys)@),
    ensures
        scanned(entries@, k + 1, final(files)@, final(keys)@),
{
    let ghost e = entries@;
    let ghost old_files = files@;
    let ghost old_keys = keys@;
    proof {
        reveal(scanned);
    }
    let entry = &entries[k];
    if entry.1 {
        let key = path_components(entry.0.as_str());
        if key_is_flac(&key) {
            proof {
                reveal(has_flac_extension);
                assert(is_flac_entry(e[k as int]));
                if flac_paths_distinct(e, k + 1) {
                    assert(flac_paths_distinct(e, k as int));
                    assert forall|i: int| 0 <= i < old_keys.len() implies kv(#[trigger] old_keys[i]) != kv(key) by {
                        lemma_file_from_entry(e, k as int, old_files, i);
                        let j = choose|j: int| 0 <= j < k && is_flac_entry(#[trigger] e[j]) && e[j].0 == old_files[i];
                        assert(components(e[j].0@) != components(e[k as int].0@));
                    }
                }
            }
            let p = insert_in_order(files, keys, entry.0.clone(), key);
            proof {
                broadcast use vstd::seq_lib::to_multiset_insert, vstd::seq_lib::to_multiset_build;
                assert(flac_paths(e, k + 1) == flac_paths(e, k as int).push(e[k as int].0));
                let fp = flac_paths(e, k as int);
                let x = e[k as int].0;
                assert forall|key: Seq<Part>| #[trigger] with_key(files@, key) == with_key(flac_paths(e, k + 1), key) by {
                    assert(fp.push(x).drop_last() =~= fp);
                    if components(x@) == key {
                        lemma_with_key_insert_last(old_files, p as int, x, key);
                    } else {
                        lemma_with_key_insert_other(old_files, p as int, x, key);
                    }
                    assert(with_key(old_files, key) == with_key(fp, key));
                }
                if flac_paths_distinct(e, k + 1) {
                    assert(flac_paths_distinct(e, k as int));
                }
            }
            return;
        }
    }
    proof {
        reveal(has_flac_extension);
        assert(!is_flac_entry(e[k as int]));
        assert(flac_paths(e, k + 1) == flac_paths(e, k as int));
        if flac_paths_distinct(e, k + 1) {
            assert(flac_paths_distinct(e, k as int));
        }
    }
}

/// Once every entry has been looked at, `files` is what `flac_files` promises.
proof fn lemma_scanned_all(e: Seq<(String, bool)>, files: Seq<String>, keys: Seq<Vec<(u8, Vec<char>)>>)
    requires
        scanned(e, e.len() as int, files, keys),
    ensures
        forall|i: int, j: int| 0 <= i < j < files.len() ==> !path_lt(#[trigger] files[j]@, #[trigger] files[i]@),
        files.to_multiset() == flac_paths(e, e.len() as int).to_multiset(),
        forall|key: Seq<Part>| #[trigger] with_key(files, key) == with_key(flac_paths(e, e.len() as int), key),
        forall|p: Seq<char>|
            #![trigger among(files, p)]
            #![trigger listed_flac(e, p)]
            among(files, p) == listed_flac(e, p),
        flac_paths_distinct(e, e.len() as int) ==> forall|i: int, j: int|
            0 <= i < j < files.len() ==> path_lt(#[trigger] files[i]@, #[trigger] files[j]@),
{
    reveal(scanned);
    reveal(path_lt);
    let n = e.len() as int;
    assert forall|i: int, j: int| 0 <= i < j < files.len() implies !path_lt(#[trigger] files[j]@, #[trigger] files[i]@) by {
        assert(kv(keys[i]) == components(files[i]@));
        assert(kv(keys[j]) == components(files[j]@));
        assert(!parts_lt(kv(keys[j]), kv(keys[i])));
    }
    assert forall|p: Seq<char>| among(files, p) == listed_flac(e, p) by {
        reveal(among);
        reveal(listed_flac);
        if among(files, p) {
            let i = choose|i: int| 0 <= i < files.len() && #[trigger] files[i]@ == p;
            lemma_file_from_entry(e, n, files, i);
            let j = choose|j: int| 0 <= j < n && is_flac_entry(#[trigger] e[j]) && e[j].0 == files[i];
            assert(e[j].0@ == p);
        }
        if listed_flac(e, p) {
            let j = choose|j: int| 0 <= j < e.len() && #[trigger] e[j].0@ == p && e[j].1 && has_flac_extension(p);
            assert(is_flac_entry(e[j]));
            lemma_entry_in_files(e, n, files, j);
            let i = choose|i: int| 0 <= i < files.len() && files[i] == e[j].0;
            assert(files[i]@ == p);
        }
    }
    if flac_paths_distinct(e, n) {
        assert forall|i: int, j: int| 0 <= i < j < files.len() implies path_lt(#[trigger] files[i]@, #[trigger] files[j]@) by {
            assert(kv(keys[i]) == components(files[i]@));
            assert(kv(keys[j]) == components(files[j]@));
            assert(parts_lt(kv(keys[i]), kv(keys[j])));
        }
    }
}

/// The FLAC files of a folder listing, in path order. Each entry is a path
/// and whether it is a file; a path is kept when it is a file whose last
/// component has the extension `flac`. The sort is stable: paths with the
/// same components keep their order in the listing.
pub fn flac_files(entries: Vec<(String, bool)>) -> (files: Vec<String>)
    ensures
        forall|i: int, j: int| 0 <= i < j < files@.len() ==> !path_lt(#[trigger] files@[j]@, #[trigger] files@[i]@),
        files@.to_multiset() == flac_paths(entries@, entries@.len() as int).to_multiset(),
        forall|key: Seq<Part>| #[trigger] with_key(files@, key) == with_key(flac_paths(entries@, entries@.len() as int), key),
        forall|p: Seq<char>|
            #![trigger among(files@, p)]
            #![trigger listed_flac(entries@, p)]
            among(files@, p) == listed_flac(entries@, p),
        flac_paths_distinct(entries@, entries@.len() as int) ==> forall|i: int, j: int|
            0 <= i < j < files@.len() ==> path_lt(#[trigger] files@[i]@, #[trigger] files@[j]@),
{
    let ghost e = entries@;
    let n = entries.len();
    let mut files: Vec<String> = Vec::new();
    let mut keys: Vec<Vec<(u8, Vec<char>)>> = Vec::new();
    proof {
        reveal(scanned);
        assert(files@ =~= flac_paths(e, 0));
    }
    for k in 0..n
        invariant
            n == e.len(),
            e == entries@,
            scanned(e, k as int, files@, keys@),
    {
        add_entry(&mut files, &mut keys, &entries, k);
    }
    proof {
        lemma_scanned_all(e, files@, keys@);
    }
    files
}

} // verus!
