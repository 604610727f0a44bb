//! Host paths as text: components, lexical containment, joining.

use vstd::prelude::*;
use vstd::string::*;
use crate::ip_text::split;
use crate::ip_text_laws::{joined_by, joined_pieces_split};
use crate::text::{
    chars_of, find_char, index_of, index_of_bounds, lower, lower_case_forgets_case, lower_char,
    lowered, uppered,
};

verus! {

pub open spec fn is_absolute(path: Seq<char>) -> bool {
    path.len() > 0 && path[0] == '/'
}

pub open spec fn has_nul(path: Seq<char>) -> bool {
    path.contains('\0')
}

/// Whether a piece between slashes names something: it is neither empty nor
/// the current directory.
pub open spec fn is_named(piece: Seq<char>) -> bool {
    piece.len() > 0 && piece != seq!['.']
}

/// The components of a path: the root, then the names between its slashes.
/// Empty pieces and `.` do not count, except for a leading `.`.
pub open spec fn components(path: Seq<char>) -> Seq<Seq<char>> {
    let pieces = split(path, '/');
    let names = pieces.filter(|piece: Seq<char>| is_named(piece));
    if is_absolute(path) {
        seq![seq!['/']] + names
    } else if pieces[0] == seq!['.'] {
        seq![seq!['.']] + names
    } else {
        names
    }
}

/// The components of a path in lower case.
pub open spec fn folded_components(path: Seq<char>) -> Seq<Seq<char>> {
    components(path).map_values(|c: Seq<char>| lowered(c))
}

/// Lexical, component-wise containment: `candidate` is `ancestor` or below
/// it. ASCII case does not count: the host file system is case-insensitive by
/// default, and folding errs towards finding an overlap.
pub open spec fn contains_path(ancestor: Seq<char>, candidate: Seq<char>) -> bool {
    folded_components(ancestor).is_prefix_of(folded_components(candidate))
}

/// `dir` with the relative path `file` behind it.
pub open spec fn joined(dir: Seq<char>, file: Seq<char>) -> Seq<char> {
    if dir.len() == 0 || dir.last() == '/' {
        dir + file
    } else {
        dir.push('/') + file
    }
}

pub open spec fn texts(strings: Seq<String>) -> Seq<Seq<char>> {
    strings.map_values(|s: String| s@)
}

pub fn path_is_absolute(path: &str) -> (yes: bool)
    ensures
        yes == is_absolute(path@),
{
    let chars: Vec<char> = chars_of(path);
    chars.len() > 0 && chars[0] == '/'
}

/// Interior NUL bytes silently truncate a path once it crosses into a C
/// string, turning `/safe\0/../etc` into `/safe`.
pub fn path_has_interior_nul(path: &str) -> (yes: bool)
    ensures
        yes == has_nul(path@),
{
    let chars: Vec<char> = chars_of(path);
    let at: usize = find_char(&chars, 0, chars.len(), '\0');
    if at < chars.len() {
        assert(path@[at as int] == '\0');
        true
    } else {
        false
    }
}

/// The characters `from..to` in lower case.
fn lowered_piece(chars: &Vec<char>, from: usize, to: usize) -> (piece: String)
    requires
        from <= to <= chars@.len(),
    ensures
        piece@ == lowered(chars@.subrange(from as int, to as int)),
{
    let mut piece: String = String::new();
    let mut i: usize = from;
    while i < to
        invariant
            from <= i <= to <= chars@.len(),
            piece@ == lowered(chars@.subrange(from as int, i as int)),
        decreases to - i,
    {
        piece.push(lower(chars[i]));
        i = i + 1;
        assert(chars@.subrange(from as int, i as int).drop_last() =~= chars@.subrange(
            from as int,
            i - 1,
        ));
        assert(piece@ =~= lowered(chars@.subrange(from as int, i as int)));
    }
    piece
}

/// The lowered names of `pieces`.
spec fn folded_names(pieces: Seq<Seq<char>>) -> Seq<Seq<char>> {
    pieces.filter(|piece: Seq<char>| is_named(piece)).map_values(|c: Seq<char>| lowered(c))
}

/// The names of a first piece and of the pieces behind it.
proof fn folded_names_step(piece: Seq<char>, rest: Seq<Seq<char>>)
    ensures
        folded_names(seq![piece] + rest) == if is_named(piece) {
            seq![lowered(piece)] + folded_names(rest)
        } else {
            folded_names(rest)
        },
{
    let named = |p: Seq<char>| is_named(p);
    let low = |c: Seq<char>| lowered(c);
    Seq::filter_distributes_over_add(seq![piece], rest, named);
    assert(seq![piece].filter(named) =~= if is_named(piece) {
        seq![piece]
    } else {
        Seq::empty()
    }) by {
        reveal_with_fuel(Seq::filter, 2);
        assert(seq![piece].drop_last() =~= Seq::empty());
        assert(Seq::<Seq<char>>::empty().push(piece) =~= seq![piece]);
    }
    assert((seq![piece].filter(named) + rest.filter(named)).map_values(low) =~= seq![piece].filter(
        named,
    ).map_values(low) + rest.filter(named).map_values(low));
    if is_named(piece) {
        assert(seq![piece].map_values(low) =~= seq![lowered(piece)]);
    } else {
        assert(Seq::<Seq<char>>::empty().map_values(low) + folded_names(rest) =~= folded_names(
            rest,
        ));
    }
}

fn lower_components(path: &str) -> (parts: Vec<String>)
    ensures
        texts(parts@) == folded_components(path@),
{
    let chars: Vec<char> = chars_of(path);
    let len: usize = chars.len();
    let ghost low = |c: Seq<char>| lowered(c);
    let ghost pieces = split(path@, '/');
    let ghost named = |piece: Seq<char>| is_named(piece);
    let mut parts: Vec<String> = Vec::new();
    if len > 0 && chars[0] == '/' {
        parts.push("/".to_string());
        proof {
            reveal_strlit("/");
            assert("/"@ =~= seq!['/']);
            assert(lowered(seq!['/']) =~= seq!['/']);
            assert(texts(parts@) =~= seq![seq!['/']]);
        }
    } else {
        let first_end: usize = find_char(&chars, 0, len, '/');
        proof {
            assert(chars@.subrange(0, len as int) =~= path@);
            if first_end < len {
                assert(pieces[0] == path@.subrange(0, first_end as int));
            } else {
                assert(pieces[0] =~= path@);
            }
        }
        if first_end == 1 && chars[0] == '.' {
            parts.push(".".to_string());
            proof {
                reveal_strlit(".");
                assert("."@ =~= seq!['.']);
                assert(lowered(seq!['.']) =~= seq!['.']);
                assert(pieces[0] =~= seq!['.']);
                assert(texts(parts@) =~= seq![seq!['.']]);
            }
        } else {
            assert(pieces[0] != seq!['.']) by {
                if pieces[0] == seq!['.'] {
                    assert(pieces[0].len() == 1);
                    assert(pieces[0][0] == path@[0]);
                }
            }
            assert(texts(parts@) =~= Seq::empty());
        }
    }
    let ghost lead = texts(parts@);
    proof {
        assert(folded_components(path@) =~= lead + folded_names(pieces));
        assert(chars@.subrange(0, len as int) =~= path@);
    }
    let mut at: usize = 0;
    loop
        invariant_except_break
            lead + folded_names(pieces) == texts(parts@) + folded_names(
                split(chars@.subrange(at as int, len as int), '/'),
            ),
        invariant
            at <= len,
            len == chars@.len(),
        ensures
            texts(parts@) == lead + folded_names(pieces),
        decreases len - at,
    {
        let ghost rest = chars@.subrange(at as int, len as int);
        let end: usize = find_char(&chars, at, len, '/');
        let ghost piece = chars@.subrange(at as int, end as int);
        let ghost behind: Seq<Seq<char>> = if end < len {
            split(chars@.subrange(end + 1, len as int), '/')
        } else {
            Seq::empty()
        };
        proof {
            if end < len {
                assert(rest.subrange(0, end - at) =~= piece);
                assert(rest.skip(end - at + 1) =~= chars@.subrange(end + 1, len as int));
            } else {
                assert(rest =~= piece);
                assert(seq![piece] + behind =~= seq![piece]);
            }
            assert(split(rest, '/') == seq![piece] + behind);
            folded_names_step(piece, behind);
        }
        let is_dot: bool = end - at == 1 && chars[at] == '.';
        assert(is_dot == (piece == seq!['.'])) by {
            if is_dot {
                assert(piece =~= seq!['.']);
            } else if piece == seq!['.'] {
                assert(piece.len() == 1 && piece[0] == '.');
            }
        }
        if end > at && !is_dot {
            let ghost before = parts@;
            parts.push(lowered_piece(&chars, at, end));
            assert(texts(parts@) =~= texts(before).push(lowered(piece)));
            assert(texts(before) + (seq![lowered(piece)] + folded_names(behind)) =~= texts(parts@)
                + folded_names(behind));
        }
        if end == len {
            proof {
                assert(folded_names(Seq::empty()) =~= Seq::empty()) by {
                    reveal(Seq::filter);
                }
                assert(texts(parts@) + folded_names(behind) =~= texts(parts@));
            }
            break;
        }
        at = end + 1;
    }
    parts
}

/// Whether `candidate` is `ancestor` or lies below it.
pub fn path_contains(ancestor: &str, candidate: &str) -> (yes: bool)
    ensures
        yes == contains_path(ancestor@, candidate@),
{
    let above: Vec<String> = lower_components(ancestor);
    let below: Vec<String> = lower_components(candidate);
    let ghost a = folded_components(ancestor@);
    let ghost b = folded_components(candidate@);
    if below.len() < above.len() {
        return false;
    }
    let mut i: usize = 0;
    while i < above.len()
        invariant
            i <= above@.len() <= below@.len(),
            a == texts(above@),
            b == texts(below@),
            a == folded_components(ancestor@),
            b == folded_components(candidate@),
            forall|j: int| 0 <= j < i ==> a[j] == b[j],
        decreases above@.len() - i,
    {
        if above[i] != below[i] {
            assert(a[i as int] != b[i as int]);
            assert(b.subrange(0, a.len() as int)[i as int] == b[i as int]);
            return false;
        }
        assert(a[i as int] == b[i as int]);
        i = i + 1;
    }
    assert(a =~= b.subrange(0, a.len() as int));
    true
}

/// `dir` with the relative path `file` behind it.
pub fn join(dir: &str, file: &str) -> (path: String)
    ensures
        path@ == joined(dir@, file@),
{
    let chars: Vec<char> = chars_of(dir);
    let mut path: String = dir.to_owned();
    if chars.len() > 0 && chars[chars.len() - 1] != '/' {
        path.push('/');
    }
    path.append(file);
    path
}

// ---------------------------------------------------------------------------
// Laws
// ---------------------------------------------------------------------------

/// Every path contains itself.
pub proof fn paths_contain_themselves(path: Seq<char>)
    ensures
        contains_path(path, path),
{
    let c = folded_components(path);
    assert(c.subrange(0, c.len() as int) =~= c);
}

/// What is below a path that is below another is below that other.
pub proof fn containment_is_transitive(a: Seq<char>, b: Seq<char>, c: Seq<char>)
    requires
        contains_path(a, b),
        contains_path(b, c),
    ensures
        contains_path(a, c),
{
    let x = folded_components(a);
    let y = folded_components(b);
    let z = folded_components(c);
    assert(x =~= z.subrange(0, x.len() as int)) by {
        assert forall|i: int| 0 <= i < x.len() implies x[i] == z[i] by {
            assert(x[i] == y.subrange(0, x.len() as int)[i]);
            assert(y[i] == z.subrange(0, y.len() as int)[i]);
        }
    }
}

/// The pieces of two texts with a slash between them.
proof fn split_of_joined(s: Seq<char>, t: Seq<char>)
    ensures
        split(s.push('/') + t, '/') == split(s, '/') + split(t, '/'),
        split(s, '/').len() > 0,
    decreases s.len(),
{
    let at = index_of(s, '/');
    let whole = s.push('/') + t;
    index_of_bounds(s, '/');
    index_of_joined(s, t);
    if at >= s.len() {
        assert(whole.subrange(0, at) =~= s);
        assert(whole.skip(at + 1) =~= t);
    } else {
        assert(whole.subrange(0, at) =~= s.subrange(0, at));
        assert(whole.skip(at + 1) =~= s.skip(at + 1).push('/') + t);
        split_of_joined(s.skip(at + 1), t);
        assert(split(whole, '/') =~= split(s, '/') + split(t, '/'));
    }
}

proof fn index_of_joined(s: Seq<char>, t: Seq<char>)
    ensures
        index_of(s.push('/') + t, '/') == index_of(s, '/'),
    decreases s.len(),
{
    if s.len() > 0 && s[0] != '/' {
        assert((s.push('/') + t).skip(1) =~= s.skip(1).push('/') + t);
        index_of_joined(s.skip(1), t);
    }
}

/// The names of a path with more behind a slash.
proof fn components_of_joined(path: Seq<char>, more: Seq<char>)
    requires
        path.len() > 0,
    ensures
        components(path.push('/') + more) == components(path) + names_in(more),
{
    let pieces = split(path, '/');
    let whole = path.push('/') + more;
    split_of_joined(path, more);
    assert(split(whole, '/')[0] == pieces[0]);
    Seq::filter_distributes_over_add(
        pieces,
        split(more, '/'),
        |piece: Seq<char>| is_named(piece),
    );
    assert(components(whole) =~= components(path) + names_in(more));
}

/// The names between the slashes of a path.
pub open spec fn names_in(path: Seq<char>) -> Seq<Seq<char>> {
    split(path, '/').filter(|piece: Seq<char>| is_named(piece))
}

proof fn nothing_named()
    ensures
        names_in(Seq::empty()) == Seq::<Seq<char>>::empty(),
{
    reveal_with_fuel(Seq::filter, 2);
    assert(split(Seq::empty(), '/') =~= seq![Seq::empty()]);
    assert(seq![Seq::<char>::empty()].drop_last() =~= Seq::empty());
    assert(names_in(Seq::empty()) =~= Seq::empty());
}

/// A trailing slash changes nothing about what a path names, contains or is
/// contained in.
pub proof fn trailing_slash_is_irrelevant(path: Seq<char>, other: Seq<char>)
    requires
        path.len() > 0,
    ensures
        components(path.push('/')) == components(path),
        contains_path(path.push('/'), other) == contains_path(path, other),
        contains_path(other, path.push('/')) == contains_path(other, path),
{
    components_of_joined(path, Seq::empty());
    assert(path.push('/') + Seq::<char>::empty() =~= path.push('/'));
    nothing_named();
    assert(components(path) + Seq::<Seq<char>>::empty() =~= components(path));
}

/// The components of what is joined to the root.
proof fn components_below_root(file: Seq<char>)
    ensures
        components(seq!['/'] + file) == components(seq!['/']) + names_in(file),
{
    let named = |piece: Seq<char>| is_named(piece);
    let empty = Seq::<char>::empty();
    let root = seq!['/'];
    assert(empty.push('/') =~= root);
    split_of_joined(empty, file);
    split_of_joined(empty, empty);
    assert(root + empty =~= root);
    nothing_named();
    Seq::filter_distributes_over_add(split(empty, '/'), split(file, '/'), named);
    Seq::filter_distributes_over_add(split(empty, '/'), split(empty, '/'), named);
    assert(names_in(root + file) =~= names_in(file));
    assert(names_in(root) =~= Seq::empty());
    assert((root + file)[0] == '/');
    assert(components(root) =~= seq![root]);
    assert(components(root + file) =~= seq![root] + names_in(file));
}

proof fn components_below(dir: Seq<char>, file: Seq<char>)
    requires
        dir.len() > 0,
    ensures
        components(joined(dir, file)) == components(dir) + names_in(file),
{
    if dir.last() != '/' {
        components_of_joined(dir, file);
    } else if dir.len() > 1 {
        let front = dir.drop_last();
        assert(front.push('/') =~= dir);
        components_of_joined(front, file);
        trailing_slash_is_irrelevant(front, file);
    } else {
        assert(dir =~= seq!['/']);
        components_below_root(file);
    }
}

/// What is joined to a directory lies below it: behind the directory's
/// components come the names of the relative path.
pub proof fn joined_paths_lie_below(dir: Seq<char>, file: Seq<char>)
    requires
        !is_absolute(file),
    ensures
        contains_path(dir, joined(dir, file)),
        dir.len() > 0 ==> components(joined(dir, file)) == components(dir) + names_in(file),
{
    let low = |c: Seq<char>| lowered(c);
    let all = folded_components(joined(dir, file));
    let above = folded_components(dir);
    if dir.len() == 0 {
        assert(dir =~= Seq::empty());
        nothing_named();
        assert(split(dir, '/')[0] == dir);
        assert(dir != seq!['.']);
        assert(above.len() == 0);
    } else {
        components_below(dir, file);
        assert(all =~= above + names_in(file).map_values(low));
    }
    assert(above =~= all.subrange(0, above.len() as int));
}

proof fn index_of_lowered(s: Seq<char>)
    ensures
        index_of(lowered(s), '/') == index_of(s, '/'),
    decreases s.len(),
{
    if s.len() > 0 {
        assert(lowered(s)[0] == lower_char(s[0]));
        assert(lowered(s).skip(1) =~= lowered(s.skip(1)));
        index_of_lowered(s.skip(1));
    }
}

proof fn split_of_lowered(s: Seq<char>)
    ensures
        split(lowered(s), '/') == split(s, '/').map_values(|c: Seq<char>| lowered(c)),
    decreases s.len(),
{
    let low = |c: Seq<char>| lowered(c);
    let at = index_of(s, '/');
    index_of_bounds(s, '/');
    index_of_lowered(s);
    if at >= s.len() {
        assert(split(lowered(s), '/') =~= split(s, '/').map_values(low));
    } else {
        assert(lowered(s).subrange(0, at) =~= lowered(s.subrange(0, at)));
        assert(lowered(s).skip(at + 1) =~= lowered(s.skip(at + 1)));
        split_of_lowered(s.skip(at + 1));
        assert(split(lowered(s), '/') =~= split(s, '/').map_values(low));
    }
}

/// Lower case keeps which pieces are the current directory.
proof fn lowered_dot(piece: Seq<char>)
    ensures
        lowered(piece) == seq!['.'] <==> piece == seq!['.'],
        is_named(lowered(piece)) == is_named(piece),
{
    if lowered(piece) == seq!['.'] {
        assert(lowered(piece).len() == 1 && lowered(piece)[0] == '.');
        assert(lower_char(piece[0]) == '.');
        assert(piece =~= seq!['.']);
    } else if piece == seq!['.'] {
        assert(lowered(piece) =~= seq!['.']);
    }
}

proof fn names_of_lowered(pieces: Seq<Seq<char>>)
    ensures
        pieces.map_values(|c: Seq<char>| lowered(c)).filter(|piece: Seq<char>| is_named(piece))
            == folded_names(pieces),
    decreases pieces.len(),
{
    let low = |c: Seq<char>| lowered(c);
    let named = |piece: Seq<char>| is_named(piece);
    reveal(Seq::filter);
    let all = pieces.map_values(low);
    if pieces.len() > 0 {
        let front = pieces.drop_last();
        names_of_lowered(front);
        lowered_dot(pieces.last());
        assert(all.drop_last() =~= front.map_values(low));
        assert(all.last() == lowered(pieces.last()));
        if is_named(pieces.last()) {
            assert(folded_names(pieces) =~= folded_names(front).push(lowered(pieces.last())));
        }
    } else {
        assert(all.filter(named) =~= folded_names(pieces));
    }
}

/// The folded components of a path are the components of the path in lower
/// case.
proof fn folding_is_lowering(path: Seq<char>)
    ensures
        folded_components(path) == components(lowered(path)),
{
    let low = |c: Seq<char>| lowered(c);
    let pieces = split(path, '/');
    split_of_lowered(path);
    names_of_lowered(pieces);
    split_of_joined(path, Seq::empty());
    lowered_dot(pieces[0]);
    if path.len() > 0 {
        assert(lowered(path)[0] == lower_char(path[0]));
    }
    assert(seq![seq!['/']].map_values(low) =~= seq![seq!['/']]) by {
        assert(lowered(seq!['/']) =~= seq!['/']);
    }
    assert(seq![seq!['.']].map_values(low) =~= seq![seq!['.']]) by {
        assert(lowered(seq!['.']) =~= seq!['.']);
    }
    assert(folded_components(path) =~= components(lowered(path)));
}

/// ASCII case changes nothing about containment, on either side: paths that
/// differ in nothing else are alike, so a path is like itself in upper case.
pub proof fn containment_ignores_case(a: Seq<char>, b: Seq<char>, other: Seq<char>)
    ensures
        lowered(a) == lowered(b) ==> contains_path(a, other) == contains_path(b, other)
            && contains_path(other, a) == contains_path(other, b),
        contains_path(uppered(a), other) == contains_path(a, other),
        contains_path(other, uppered(a)) == contains_path(other, a),
{
    folding_is_lowering(a);
    folding_is_lowering(b);
    folding_is_lowering(uppered(a));
    lower_case_forgets_case(a);
}

/// Containment is by components: of two absolute paths, given by the names
/// between their slashes, the first holds the second exactly where its names
/// are the first names of the second, letter case aside. So `/a` holds `/a/b`
/// but not `/ab`.
pub proof fn containment_is_by_names(above: Seq<Seq<char>>, below: Seq<Seq<char>>)
    requires
        above.len() > 0,
        below.len() > 0,
        forall|i: int|
            0 <= i < above.len() ==> !(#[trigger] above[i]).contains('/') && above[i].len() > 0
                && above[i] != seq!['.'],
        forall|i: int|
            0 <= i < below.len() ==> !(#[trigger] below[i]).contains('/') && below[i].len() > 0
                && below[i] != seq!['.'],
    ensures
        components(seq!['/'] + joined_by(above, '/')) == seq![seq!['/']] + above,
        contains_path(seq!['/'] + joined_by(above, '/'), seq!['/'] + joined_by(below, '/')) <==> (
        above.len() <= below.len() && forall|i: int|
            0 <= i < above.len() ==> lowered(#[trigger] above[i]) == lowered(below[i])),
{
    let low = |c: Seq<char>| lowered(c);
    absolute_components(above);
    absolute_components(below);
    let a = folded_components(seq!['/'] + joined_by(above, '/'));
    let b = folded_components(seq!['/'] + joined_by(below, '/'));
    assert(a.len() == above.len() + 1 && b.len() == below.len() + 1);
    assert forall|i: int| 0 <= i < above.len() implies a[i + 1] == lowered(
        #[trigger] above[i],
    ) by {}
    assert forall|i: int| 0 <= i < below.len() implies b[i + 1] == lowered(
        #[trigger] below[i],
    ) by {}
    assert(a[0] == lowered(seq!['/']) && b[0] == lowered(seq!['/']));
    if a.is_prefix_of(b) {
        assert forall|i: int| 0 <= i < above.len() implies lowered(#[trigger] above[i]) == lowered(
            below[i],
        ) by {
            assert(a[i + 1] == b.subrange(0, a.len() as int)[i + 1]);
            assert(b[i + 1] == lowered(below[i]));
        }
    }
    if above.len() <= below.len() && forall|i: int|
        0 <= i < above.len() ==> lowered(#[trigger] above[i]) == lowered(below[i]) {
        assert forall|k: int| 0 <= k < a.len() implies #[trigger] a[k] == b[k] by {
            if k > 0 {
                assert(lowered(above[k - 1]) == lowered(below[k - 1]));
                assert(a[k] == lowered(above[k - 1]));
                assert(b[k] == lowered(below[k - 1]));
            }
        }
        assert(a =~= b.subrange(0, a.len() as int));
    }
}

proof fn absolute_components(names: Seq<Seq<char>>)
    requires
        names.len() > 0,
        forall|i: int|
            0 <= i < names.len() ==> !(#[trigger] names[i]).contains('/') && names[i].len() > 0
                && names[i] != seq!['.'],
    ensures
        components(seq!['/'] + joined_by(names, '/')) == seq![seq!['/']] + names,
{
    let file = joined_by(names, '/');
    components_below_root(file);
    joined_pieces_split(names, '/');
    all_named(names);
    components_below_root(Seq::empty());
    nothing_named();
    assert(seq!['/'] + Seq::<char>::empty() =~= seq!['/']);
    assert(components(seq!['/']) =~= seq![seq!['/']]) by {
        let empty = Seq::<char>::empty();
        assert(empty.push('/') =~= seq!['/']);
        split_of_joined(empty, empty);
        assert(empty.push('/') + empty =~= seq!['/']);
        Seq::filter_distributes_over_add(
            split(empty, '/'),
            split(empty, '/'),
            |piece: Seq<char>| is_named(piece),
        );
    }
}

proof fn all_named(names: Seq<Seq<char>>)
    requires
        forall|i: int| 0 <= i < names.len() ==> is_named(#[trigger] names[i]),
    ensures
        names.filter(|piece: Seq<char>| is_named(piece)) == names,
    decreases names.len(),
{
    reveal(Seq::filter);
    if names.len() > 0 {
        let front = names.drop_last();
        assert forall|i: int| 0 <= i < front.len() implies is_named(#[trigger] front[i]) by {
            assert(is_named(names[i]));
        }
        all_named(front);
        assert(is_named(names[names.len() - 1]));
        assert(front.push(names.last()) =~= names);
    }
}

/// The names of a path, piece by piece: what stands between slashes is a name,
/// but for nothing and for `.`, and names of two parts with a slash between
/// them are the names of each, in order.
pub proof fn names_stand_between_slashes(front: Seq<char>, back: Seq<char>, piece: Seq<char>)
    requires
        !piece.contains('/'),
    ensures
        names_in(front + seq!['/'] + back) == names_in(front) + names_in(back),
        names_in(piece) == (if piece.len() == 0 || piece == seq!['.'] {
            Seq::empty()
        } else {
            seq![piece]
        }),
{
    assert(front.push('/') + back =~= front + seq!['/'] + back);
    split_of_joined(front, back);
    Seq::filter_distributes_over_add(
        split(front, '/'),
        split(back, '/'),
        |piece: Seq<char>| is_named(piece),
    );
    joined_pieces_split(seq![piece], '/');
    assert(joined_by(seq![piece], '/') =~= piece);
    reveal_with_fuel(Seq::filter, 2);
    assert(seq![piece].drop_last() =~= Seq::empty());
    assert(names_in(piece) =~= if piece.len() == 0 || piece == seq!['.'] {
        Seq::empty()
    } else {
        seq![piece]
    });
}

/// What a path is made of: the root where it begins with a slash, a dot where
/// its first piece is one, and its names.
pub proof fn paths_begin_at_the_root_or_here(rest: Seq<char>, name: Seq<char>)
    requires
        !name.contains('/'),
        name != seq!['.'],
    ensures
        components(seq!['/'] + rest) == seq![seq!['/']] + names_in(rest),
        components(seq!['.', '/'] + rest) == seq![seq!['.']] + names_in(rest),
        components(name + seq!['/'] + rest) == (if name.len() == 0 {
            seq![seq!['/']] + names_in(rest)
        } else {
            seq![name] + names_in(rest)
        }),
{
    let empty = Seq::<char>::empty();
    let dot = seq!['.'];
    assert(!empty.contains('/') && !dot.contains('/'));
    names_stand_between_slashes(empty, rest, empty);
    names_stand_between_slashes(dot, rest, dot);
    names_stand_between_slashes(name, rest, name);
    assert(empty + seq!['/'] + rest =~= seq!['/'] + rest);
    assert(dot + seq!['/'] + rest =~= seq!['.', '/'] + rest);
    first_piece_of(empty, rest);
    first_piece_of(dot, rest);
    first_piece_of(name, rest);
    assert(components(seq!['/'] + rest) =~= seq![seq!['/']] + names_in(rest));
    assert(components(seq!['.', '/'] + rest) =~= seq![seq!['.']] + names_in(rest));
    let whole = name + seq!['/'] + rest;
    if name.len() == 0 {
        assert(whole =~= seq!['/'] + rest);
    } else {
        assert(whole[0] == name[0]);
        assert(name.contains(name[0]));
        assert(components(whole) =~= seq![name] + names_in(rest));
    }
}

proof fn first_piece_of(piece: Seq<char>, rest: Seq<char>)
    requires
        !piece.contains('/'),
    ensures
        split(piece + seq!['/'] + rest, '/')[0] == piece,
{
    assert(piece.push('/') + rest =~= piece + seq!['/'] + rest);
    split_of_joined(piece, rest);
    joined_pieces_split(seq![piece], '/');
    assert(joined_by(seq![piece], '/') =~= piece);
}

} // verus!
