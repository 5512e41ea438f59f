//! Joining manifest-relative paths onto an extraction root without ever
//! escaping it.

use vstd::prelude::*;

use crate::primitives::push_char;
use crate::VaultError;

verus! {

pub open spec fn is_sep(c: char) -> bool {
    c == '/' || c == '\\'
}

/// `s` split at every separator (empty pieces kept).
pub open spec fn spec_pieces(s: Seq<char>) -> Seq<Seq<char>>
    decreases s.len(),
{
    if s.len() == 0 {
        seq![Seq::<char>::empty()]
    } else {
        let prev = spec_pieces(s.drop_last());
        if is_sep(s.last()) {
            prev.push(Seq::empty())
        } else {
            prev.update(prev.len() - 1, prev.last().push(s.last()))
        }
    }
}

pub open spec fn spec_upper(c: char) -> char {
    if 'a' <= c <= 'z' { ((c as u32) - 32) as char } else { c }
}

/// The part of a piece before its first dot.
pub open spec fn spec_stem(p: Seq<char>) -> Seq<char>
    decreases p.len(),
{
    if p.len() == 0 {
        p
    } else if p.drop_last().contains('.') {
        spec_stem(p.drop_last())
    } else if p.last() == '.' {
        p.drop_last()
    } else {
        p
    }
}

/// `p` without trailing spaces.
pub open spec fn spec_trim_end(p: Seq<char>) -> Seq<char>
    decreases p.len(),
{
    if p.len() > 0 && p.last() == ' ' { spec_trim_end(p.drop_last()) } else { p }
}

/// A Windows device name: CON, PRN, AUX, NUL, COM1-COM9, LPT1-LPT9, in any
/// case, whatever extension follows and with trailing spaces ignored.
pub open spec fn spec_is_device_name(p: Seq<char>) -> bool {
    let n = spec_trim_end(spec_stem(p)).map_values(|c: char| spec_upper(c));
    ||| n == seq!['C', 'O', 'N']
    ||| n == seq!['P', 'R', 'N']
    ||| n == seq!['A', 'U', 'X']
    ||| n == seq!['N', 'U', 'L']
    ||| (n.len() == 4 && (n.subrange(0, 3) == seq!['C', 'O', 'M'] || n.subrange(0, 3) == seq!['L', 'P', 'T'])
        && '1' <= n[3] <= '9')
}

/// A piece that may not appear in a manifest path.
pub open spec fn spec_bad_piece(p: Seq<char>) -> bool {
    ||| p == seq!['.', '.']
    ||| p.contains(':')
    ||| spec_is_device_name(p)
}

/// A manifest path is safe: non-empty, relative (no leading separator, no
/// leading `.`), no `..`, no `:` (drive prefixes, alternate data streams),
/// no device names.
pub open spec fn spec_rel_path_ok(rel: Seq<char>) -> bool {
    let pieces = spec_pieces(rel);
    &&& rel.len() > 0
    &&& !is_sep(rel[0])
    &&& pieces[0] != seq!['.']
    &&& forall|i: int| 0 <= i < pieces.len() ==> !spec_bad_piece(#[trigger] pieces[i])
}

/// A piece that names a path component (not empty, not `.`).
pub open spec fn keep_piece(p: Seq<char>) -> bool {
    p.len() > 0 && p != seq!['.']
}

/// The path components a safe manifest path names: its pieces without the
/// empty ones and the `.` ones.
pub open spec fn spec_components(rel: Seq<char>) -> Seq<Seq<char>> {
    spec_pieces(rel).filter(|p: Seq<char>| keep_piece(p))
}

/// `parts` joined with `/`.
pub open spec fn spec_join(parts: Seq<Seq<char>>) -> Seq<char>
    decreases parts.len(),
{
    if parts.len() == 0 {
        Seq::empty()
    } else if parts.len() == 1 {
        parts[0]
    } else {
        spec_join(parts.drop_last()) + seq!['/'] + parts.last()
    }
}

/// `root` followed by a separator, unless it is empty or already ends in one.
pub open spec fn spec_root_prefix(root: Seq<char>) -> Seq<char> {
    if root.len() == 0 || is_sep(root.last()) { root } else { root.push('/') }
}

pub open spec fn views_of(v: Seq<Vec<char>>) -> Seq<Seq<char>> {
    v.map_values(|x: Vec<char>| x@)
}

fn split_pieces(s: &Vec<char>) -> (r: Vec<Vec<char>>)
    ensures
        views_of(r@) == spec_pieces(s@),
        r@.len() >= 1,
{
    let mut done: Vec<Vec<char>> = Vec::new();
    let mut current: Vec<char> = Vec::new();
    let mut i: usize = 0;
    while i < s.len()
        invariant
            i <= s@.len(),
            spec_pieces(s@.take(i as int)) == views_of(done@).push(current@),
        decreases s@.len() - i,
    {
        let c = s[i];
        assert(s@.take(i + 1).drop_last() =~= s@.take(i as int));
        assert(s@.take(i + 1).last() == c);
        if c == '/' || c == '\\' {
            let ghost before = views_of(done@);
            let finished = current;
            done.push(finished);
            current = Vec::new();
            assert(views_of(done@) =~= before.push(finished@));
            assert(views_of(done@).push(current@) =~= before.push(finished@).push(Seq::empty()));
        } else {
            let ghost before = views_of(done@);
            let ghost cur0 = current@;
            current.push(c);
            assert(before.push(cur0).update(before.len() as int, cur0.push(c)) =~= before.push(current@));
        }
        i = i + 1;
    }
    assert(s@.take(s@.len() as int) =~= s@);
    let ghost before = views_of(done@);
    done.push(current);
    assert(views_of(done@) =~= before.push(current@));
    done
}

fn stem(p: &Vec<char>) -> (r: Vec<char>)
    ensures
        r@ == spec_stem(p@),
{
    let mut out: Vec<char> = Vec::new();
    let mut seen_dot = false;
    let mut i: usize = 0;
    while i < p.len()
        invariant
            i <= p@.len(),
            seen_dot == p@.take(i as int).contains('.'),
            out@ == spec_stem(p@.take(i as int)),
            !seen_dot ==> out@ == p@.take(i as int),
        decreases p@.len() - i,
    {
        let c = p[i];
        let ghost t = p@.take(i + 1);
        assert(t.drop_last() =~= p@.take(i as int));
        assert(t.last() == c);
        if !seen_dot {
            if c == '.' {
                seen_dot = true;
                assert(t.contains('.')) by {
                    assert(t[i as int] == '.');
                }
            } else {
                out.push(c);
                assert(out@ =~= t);
                assert(!t.contains('.')) by {
                    if t.contains('.') {
                        let k = choose|k: int| 0 <= k < t.len() && t[k] == '.';
                        if k < i {
                            assert(p@.take(i as int)[k] == '.');
                        }
                    }
                }
            }
        } else {
            assert(t.contains('.')) by {
                let k = choose|k: int| 0 <= k < i && p@.take(i as int)[k] == '.';
                assert(t[k] == '.');
            }
        }
        i = i + 1;
    }
    assert(p@.take(p@.len() as int) =~= p@);
    out
}

fn trim_end(p: Vec<char>) -> (r: Vec<char>)
    ensures
        r@ == spec_trim_end(p@),
{
    let mut v = p;
    while v.len() > 0 && v[v.len() - 1] == ' '
        invariant
            spec_trim_end(v@) == spec_trim_end(p@),
        decreases v@.len(),
    {
        let ghost before = v@;
        v.pop();
        assert(v@ =~= before.drop_last());
    }
    v
}

fn upper_all(p: &Vec<char>) -> (r: Vec<char>)
    ensures
        r@ == p@.map_values(|c: char| spec_upper(c)),
{
    let mut out: Vec<char> = Vec::new();
    let mut i: usize = 0;
    while i < p.len()
        invariant
            i <= p@.len(),
            out@ =~= p@.take(i as int).map_values(|c: char| spec_upper(c)),
        decreases p@.len() - i,
    {
        let c = p[i];
        let u = if 'a' <= c && c <= 'z' { ((c as u8) - 32) as char } else { c };
        out.push(u);
        i = i + 1;
    }
    assert(p@.take(p@.len() as int) =~= p@);
    out
}

fn is_device_name(p: &Vec<char>) -> (r: bool)
    ensures
        r == spec_is_device_name(p@),
{
    let n = upper_all(&trim_end(stem(p)));
    proof {
        assert(n@ == spec_trim_end(spec_stem(p@)).map_values(|c: char| spec_upper(c)));
    }
    if n.len() == 3 {
        let (a, b, c) = (n[0], n[1], n[2]);
        let r = (a == 'C' && b == 'O' && c == 'N') || (a == 'P' && b == 'R' && c == 'N')
            || (a == 'A' && b == 'U' && c == 'X') || (a == 'N' && b == 'U' && c == 'L');
        proof {
            assert(r ==> (n@ =~= seq!['C', 'O', 'N'] || n@ =~= seq!['P', 'R', 'N'] || n@ =~= seq!['A', 'U', 'X']
                || n@ =~= seq!['N', 'U', 'L']));
        }
        r
    } else if n.len() == 4 {
        let (a, b, c, d) = (n[0], n[1], n[2], n[3]);
        let r = ((a == 'C' && b == 'O' && c == 'M') || (a == 'L' && b == 'P' && c == 'T')) && '1' <= d && d <= '9';
        proof {
            assert(r ==> (n@.subrange(0, 3) =~= seq!['C', 'O', 'M'] || n@.subrange(0, 3) =~= seq!['L', 'P', 'T']));
            assert((n@.subrange(0, 3) == seq!['C', 'O', 'M']) ==> (a == 'C' && b == 'O' && c == 'M')) by {
                if n@.subrange(0, 3) == seq!['C', 'O', 'M'] {
                    assert(n@.subrange(0, 3)[0] == 'C');
                    assert(n@.subrange(0, 3)[1] == 'O');
                    assert(n@.subrange(0, 3)[2] == 'M');
                }
            }
            assert((n@.subrange(0, 3) == seq!['L', 'P', 'T']) ==> (a == 'L' && b == 'P' && c == 'T')) by {
                if n@.subrange(0, 3) == seq!['L', 'P', 'T'] {
                    assert(n@.subrange(0, 3)[0] == 'L');
                    assert(n@.subrange(0, 3)[1] == 'P');
                    assert(n@.subrange(0, 3)[2] == 'T');
                }
            }
        }
        r
    } else {
        false
    }
}

fn is_bad_piece(p: &Vec<char>) -> (r: bool)
    ensures
        r == spec_bad_piece(p@),
{
    if p.len() == 2 && p[0] == '.' && p[1] == '.' {
        assert(p@ =~= seq!['.', '.']);
        return true;
    }
    assert(p@ != seq!['.', '.']) by {
        if p@ == seq!['.', '.'] {
            assert(p@[0] == '.' && p@[1] == '.');
        }
    }
    let mut i: usize = 0;
    while i < p.len()
        invariant
            i <= p@.len(),
            forall|j: int| 0 <= j < i ==> p@[j] != ':',
        decreases p@.len() - i,
    {
        if p[i] == ':' {
            assert(p@.contains(':'));
            return true;
        }
        i = i + 1;
    }
    assert(!p@.contains(':'));
    is_device_name(p)
}

/// The characters of `s`.
pub fn chars_of(s: &str) -> (r: Vec<char>)
    ensures
        r@ == s@,
{
    let mut out: Vec<char> = Vec::new();
    for c in iter: s.chars()
        invariant
            iter.seq() == s@,
            out@ == s@.take(iter.index()),
    {
        assert(s@.take(iter.index() + 1) =~= s@.take(iter.index()).push(c));
        out.push(c);
    }
    assert(s@.take(s@.len() as int) =~= s@);
    out
}

/// Whether two texts are the same.
pub fn text_eq(a: &str, b: &str) -> (r: bool)
    ensures
        r == (a@ == b@),
{
    let x = chars_of(a);
    let y = chars_of(b);
    if x.len() != y.len() {
        return false;
    }
    let mut i: usize = 0;
    while i < x.len()
        invariant
            i <= x@.len(),
            x@ == a@,
            y@ == b@,
            x@.len() == y@.len(),
            forall|j: int| 0 <= j < i ==> x@[j] == y@[j],
        decreases x@.len() - i,
    {
        if x[i] != y[i] {
            return false;
        }
        i = i + 1;
    }
    assert(a@ =~= b@);
    true
}

/// Append `p` to `out`.
pub fn push_chars(out: &mut String, p: &Vec<char>)
    ensures
        final(out)@ == old(out)@ + p@,
{
    let mut i: usize = 0;
    while i < p.len()
        invariant
            i <= p@.len(),
            out@ == old(out)@ + p@.take(i as int),
        decreases p@.len() - i,
    {
        assert(p@.take(i + 1) =~= p@.take(i as int).push(p@[i as int]));
        push_char(out, p[i]);
        assert(out@ =~= old(out)@ + p@.take(i + 1));
        i = i + 1;
    }
    assert(p@.take(p@.len() as int) =~= p@);
}

/// Join a manifest-relative path onto `root`, rejecting anything that could
/// escape it (`..`, absolute paths, drive prefixes and other `:` forms, a
/// leading `.`, device names). Defense against a crafted container
/// performing path traversal on unlock. Separators are `/` and `\`; empty
/// and `.` components are dropped; the result uses `/`.
pub fn safe_join(root: &str, rel: &str) -> (r: Result<String, VaultError>)
    ensures
        r is Ok <==> spec_rel_path_ok(rel@),
        r matches Ok(p) ==> p@ == spec_root_prefix(root@) + spec_join(spec_components(rel@)),
        r matches Err(e) ==> e == VaultError::Tampered,
{
    let rel_chars = chars_of(rel);
    if rel_chars.len() == 0 {
        return Err(VaultError::Tampered);
    }
    let c0 = rel_chars[0];
    if c0 == '/' || c0 == '\\' {
        return Err(VaultError::Tampered);
    }
    let pieces = split_pieces(&rel_chars);
    let ghost pv = spec_pieces(rel@);
    assert(views_of(pieces@) == pv);
    assert(pieces@[0]@ == pv[0]);
    if pieces[0].len() == 1 && pieces[0][0] == '.' {
        assert(pv[0] =~= seq!['.']);
        return Err(VaultError::Tampered);
    }
    assert(pv[0] != seq!['.']) by {
        if pv[0] == seq!['.'] {
            assert(pieces@[0]@[0] == '.');
        }
    }
    let mut i: usize = 0;
    while i < pieces.len()
        invariant
            i <= pieces@.len(),
            views_of(pieces@) == pv,
            pv == spec_pieces(rel@),
            forall|j: int| 0 <= j < i ==> !spec_bad_piece(#[trigger] pv[j]),
        decreases pieces@.len() - i,
    {
        assert(pieces@[i as int]@ == pv[i as int]);
        if is_bad_piece(&pieces[i]) {
            assert(spec_bad_piece(pv[i as int]));
            return Err(VaultError::Tampered);
        }
        i = i + 1;
    }
    assert(spec_rel_path_ok(rel@));
    let root_chars = chars_of(root);
    let mut out = String::new();
    push_chars(&mut out, &root_chars);
    assert(out@ =~= root@);
    if root_chars.len() > 0 {
        let last = root_chars[root_chars.len() - 1];
        if !(last == '/' || last == '\\') {
            push_char(&mut out, '/');
        }
    }
    let ghost prefix = out@;
    assert(prefix == spec_root_prefix(root@));
    let mut wrote = false;
    let mut i: usize = 0;
    while i < pieces.len()
        invariant
            i <= pieces@.len(),
            views_of(pieces@) == pv,
            out@ == prefix + spec_join(pv.take(i as int).filter(|p: Seq<char>| keep_piece(p))),
            wrote == (pv.take(i as int).filter(|p: Seq<char>| keep_piece(p)).len() > 0),
        decreases pieces@.len() - i,
    {
        let ghost kept = pv.take(i as int).filter(|p: Seq<char>| keep_piece(p));
        assert(pv.take(i + 1).drop_last() =~= pv.take(i as int));
        assert(pieces@[i as int]@ == pv[i as int]);
        reveal_with_fuel(Seq::<_>::filter, 1);
        let p = &pieces[i];
        let keep = p.len() > 0 && !(p.len() == 1 && p[0] == '.');
        assert(keep == keep_piece(pv[i as int])) by {
            if p@.len() == 1 && p@[0] == '.' {
                assert(p@ =~= seq!['.']);
            }
            if p@ == seq!['.'] {
                assert(p@[0] == '.');
            }
        }
        if keep {
            if wrote {
                push_char(&mut out, '/');
            }
            push_chars(&mut out, p);
            let ghost k2 = kept.push(pv[i as int]);
            assert(pv.take(i + 1).filter(|p: Seq<char>| keep_piece(p)) == k2);
            assert(k2.drop_last() =~= kept);
            if wrote {
                assert(spec_join(k2) == spec_join(kept) + seq!['/'] + pv[i as int]);
            } else {
                assert(kept.len() == 0);
                assert(spec_join(k2) == pv[i as int]);
            }
            assert(out@ =~= prefix + spec_join(k2));
            wrote = true;
        } else {
            assert(pv.take(i + 1).filter(|p: Seq<char>| keep_piece(p)) == kept);
        }
        i = i + 1;
    }
    assert(pv.take(pieces@.len() as int) =~= pv);
    assert(spec_components(rel@) =~= pv.filter(|p: Seq<char>| keep_piece(p)));
    Ok(out)
}

/// A plain file name: not empty, not `.` or `..`, no separator, no `:`.
pub open spec fn spec_plain_name(p: Seq<char>) -> bool {
    &&& p.len() > 0
    &&& p != seq!['.']
    &&& p != seq!['.', '.']
    &&& !p.contains(':')
    &&& forall|j: int| 0 <= j < p.len() ==> !is_sep(#[trigger] p[j])
}

proof fn lemma_pieces_have_no_separator(s: Seq<char>)
    ensures
        spec_pieces(s).len() >= 1,
        forall|i: int, j: int|
            0 <= i < spec_pieces(s).len() && 0 <= j < spec_pieces(s)[i].len()
                ==> !is_sep(#[trigger] spec_pieces(s)[i][j]),
    decreases s.len(),
{
    if s.len() > 0 {
        lemma_pieces_have_no_separator(s.drop_last());
        let prev = spec_pieces(s.drop_last());
        let cur = spec_pieces(s);
        if !is_sep(s.last()) {
            assert forall|i: int, j: int| 0 <= i < cur.len() && 0 <= j < cur[i].len()
                implies !is_sep(#[trigger] cur[i][j]) by {
                if i == prev.len() - 1 {
                    if j < prev.last().len() {
                        assert(cur[i][j] == prev[i][j]);
                    }
                } else {
                    assert(cur[i] == prev[i]);
                }
            }
        } else {
            assert forall|i: int, j: int| 0 <= i < cur.len() && 0 <= j < cur[i].len()
                implies !is_sep(#[trigger] cur[i][j]) by {
                assert(cur[i] == prev[i]);
            }
        }
    }
}

/// Every component of a path `safe_join` accepts is a plain name, so the
/// joined path stays inside the root: no `..`, no absolute or drive part,
/// no separator hidden in a component.
pub proof fn lemma_safe_components_are_plain(rel: Seq<char>)
    requires
        spec_rel_path_ok(rel),
    ensures
        forall|i: int| 0 <= i < spec_components(rel).len() ==> spec_plain_name(#[trigger] spec_components(rel)[i]),
        forall|i: int, j: int| 0 <= i < spec_components(rel).len() && 0 <= j < spec_components(rel)[i].len()
            ==> #[trigger] spec_components(rel)[i][j] != '/' && spec_components(rel)[i][j] != '\\'
                && spec_components(rel)[i][j] != ':',
        forall|i: int| 0 <= i < spec_components(rel).len() ==> #[trigger] spec_components(rel)[i] != seq!['.', '.'],
{
    let pieces = spec_pieces(rel);
    let comps = spec_components(rel);
    lemma_pieces_have_no_separator(rel);
    assert forall|i: int| 0 <= i < comps.len() implies spec_plain_name(#[trigger] comps[i]) by {
        pieces.lemma_filter_pred(|p: Seq<char>| keep_piece(p), i);
        assert(comps.contains(comps[i]));
        pieces.lemma_filter_contains_rev(|p: Seq<char>| keep_piece(p), comps[i]);
        let k = choose|k: int| 0 <= k < pieces.len() && pieces[k] == comps[i];
        assert(!spec_bad_piece(pieces[k]));
        assert forall|j: int| 0 <= j < comps[i].len() implies !is_sep(#[trigger] comps[i][j]) by {
            assert(comps[i][j] == pieces[k][j]);
        }
    }
}

/// The path check refuses nothing else: a non-empty path with no leading
/// separator and no leading `.` piece, whose pieces are each empty, `.`, or
/// a name that is not `..`, holds no `:` and is not a device name (any other
/// characters, spaces and dots included), is accepted; and only such paths
/// are.
pub proof fn lemma_rel_path_ok_exactly(rel: Seq<char>)
    ensures
        spec_rel_path_ok(rel) <==> {
            &&& rel.len() > 0
            &&& rel[0] != '/' && rel[0] != '\\'
            &&& spec_pieces(rel)[0] != seq!['.']
            &&& forall|i: int| 0 <= i < spec_pieces(rel).len() ==> {
                let p = #[trigger] spec_pieces(rel)[i];
                &&& p != seq!['.', '.']
                &&& forall|j: int| 0 <= j < p.len() ==> p[j] != ':'
                &&& !spec_is_device_name(p)
            }
        },
{
    let pieces = spec_pieces(rel);
    assert forall|i: int| 0 <= i < pieces.len() implies (!spec_bad_piece(#[trigger] pieces[i]) <==> {
        let p = pieces[i];
        &&& p != seq!['.', '.']
        &&& forall|j: int| 0 <= j < p.len() ==> p[j] != ':'
        &&& !spec_is_device_name(p)
    }) by {
        let p = pieces[i];
        if p.contains(':') {
            let j = choose|j: int| 0 <= j < p.len() && p[j] == ':';
            assert(p[j] == ':');
        }
        if exists|j: int| 0 <= j < p.len() && p[j] == ':' {
            let j = choose|j: int| 0 <= j < p.len() && p[j] == ':';
            assert(p.contains(':'));
        }
    }
}

proof fn lemma_stem_without_dot(a: Seq<char>)
    requires
        !a.contains('.'),
    ensures
        spec_stem(a) == a,
{
    if a.len() > 0 {
        assert(!a.drop_last().contains('.')) by {
            if a.drop_last().contains('.') {
                let k = choose|k: int| 0 <= k < a.drop_last().len() && a.drop_last()[k] == '.';
                assert(a[k] == '.');
            }
        }
        assert(a.last() != '.') by {
            assert(a[a.len() - 1] == a.last());
        }
    }
}

proof fn lemma_stem_with_extension(a: Seq<char>, b: Seq<char>)
    requires
        !a.contains('.'),
    ensures
        spec_stem(a + seq!['.'] + b) == a,
    decreases b.len(),
{
    let q = a + seq!['.'] + b;
    if b.len() == 0 {
        assert(q.drop_last() =~= a);
        assert(q.last() == '.');
    } else {
        lemma_stem_with_extension(a, b.drop_last());
        assert(q.drop_last() =~= a + seq!['.'] + b.drop_last());
        assert(q.drop_last()[a.len() as int] == '.');
        assert(q.drop_last().contains('.'));
    }
}

/// What counts as a device name: CON, PRN, AUX, NUL and COM1-COM9,
/// LPT1-LPT9 (a `.` extension and trailing spaces make no difference, nor
/// does case), and nothing else: a name without dots or spaces is none
/// unless it is 3 or 4 characters long and starts with C, P, A, N or L in
/// either case.
pub proof fn lemma_device_names(a: Seq<char>, b: Seq<char>, d: char)
    requires
        !a.contains('.'),
    ensures
        spec_is_device_name(a + seq!['.'] + b) == spec_is_device_name(a),
        spec_is_device_name(a.push(' ')) == spec_is_device_name(a),
        !a.contains(' ') ==> spec_is_device_name(a.map_values(|c: char| spec_upper(c))) == spec_is_device_name(a),
        !a.contains(' ') && a.len() != 3 && a.len() != 4 ==> !spec_is_device_name(a),
        !a.contains(' ') && a.len() > 0 && !(a[0] == 'C' || a[0] == 'P' || a[0] == 'A' || a[0] == 'N' || a[0] == 'L'
            || a[0] == 'c' || a[0] == 'p' || a[0] == 'a' || a[0] == 'n' || a[0] == 'l') ==> !spec_is_device_name(a),
        spec_is_device_name(seq!['C', 'O', 'N']),
        spec_is_device_name(seq!['P', 'R', 'N']),
        spec_is_device_name(seq!['A', 'U', 'X']),
        spec_is_device_name(seq!['N', 'U', 'L']),
        '1' <= d <= '9' ==> spec_is_device_name(seq!['C', 'O', 'M', d]),
        '1' <= d <= '9' ==> spec_is_device_name(seq!['L', 'P', 'T', d]),
{
    lemma_stem_with_extension(a, b);
    lemma_stem_without_dot(a);
    let ap = a.push(' ');
    assert(!ap.contains('.')) by {
        if ap.contains('.') {
            let k = choose|k: int| 0 <= k < ap.len() && ap[k] == '.';
            if k < a.len() {
                assert(a[k] == '.');
            }
        }
    }
    lemma_stem_without_dot(ap);
    assert(ap.drop_last() =~= a);
    let up = a.map_values(|c: char| spec_upper(c));
    if !a.contains(' ') {
        assert(!up.contains('.')) by {
            if up.contains('.') {
                let k = choose|k: int| 0 <= k < up.len() && up[k] == '.';
                assert(up[k] == spec_upper(a[k]));
                assert(a[k] == '.');
            }
        }
        assert(!up.contains(' ')) by {
            if up.contains(' ') {
                let k = choose|k: int| 0 <= k < up.len() && up[k] == ' ';
                assert(up[k] == spec_upper(a[k]));
                assert(a[k] == ' ');
            }
        }
        lemma_stem_without_dot(up);
        if a.len() > 0 {
            assert(a.last() != ' ') by {
                assert(a[a.len() - 1] == a.last());
            }
            assert(up.last() != ' ') by {
                assert(up[up.len() - 1] == up.last());
            }
        }
        assert(spec_trim_end(a) == a);
        assert(spec_trim_end(up) == up);
        assert(up.map_values(|c: char| spec_upper(c)) =~= up);
        let n = a.map_values(|c: char| spec_upper(c));
        if a.len() > 0 {
            assert(n[0] == spec_upper(a[0]));
        }
    }
    let con = seq!['C', 'O', 'N'];
    let prn = seq!['P', 'R', 'N'];
    let aux = seq!['A', 'U', 'X'];
    let nul = seq!['N', 'U', 'L'];
    lemma_stem_without_dot(con);
    lemma_stem_without_dot(prn);
    lemma_stem_without_dot(aux);
    lemma_stem_without_dot(nul);
    assert(con.map_values(|c: char| spec_upper(c)) =~= con);
    assert(prn.map_values(|c: char| spec_upper(c)) =~= prn);
    assert(aux.map_values(|c: char| spec_upper(c)) =~= aux);
    assert(nul.map_values(|c: char| spec_upper(c)) =~= nul);
    if '1' <= d <= '9' {
        let com = seq!['C', 'O', 'M', d];
        let lpt = seq!['L', 'P', 'T', d];
        lemma_stem_without_dot(com);
        lemma_stem_without_dot(lpt);
        assert(com.map_values(|c: char| spec_upper(c)) =~= com);
        assert(lpt.map_values(|c: char| spec_upper(c)) =~= lpt);
        assert(com.subrange(0, 3) =~= seq!['C', 'O', 'M']);
        assert(lpt.subrange(0, 3) =~= seq!['L', 'P', 'T']);
    }
}

} // verus!
