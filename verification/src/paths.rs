//! Canonical absolute paths.
//!
//! A path is modelled as its bytes, with `/` separating components.
//! [`absolute_path`] resolves an input path against a working
//! directory and cleans the result: empty components and `.` are
//! dropped, and `..` removes the component before it (at the root it
//! is dropped). The specification is layered: [`raw_split`] cuts the
//! bytes at separators, [`components_of`] keeps the nonempty pieces,
//! [`cleaned`] applies the `.`/`..` rules, and [`join_absolute`]
//! renders the components back as one absolute path.

use vstd::prelude::*;

verus! {

/// The path separator byte, `/`.
pub const SEP: u8 = 47;

/// The byte of `.`, the component naming the current directory.
pub const DOT_BYTE: u8 = 46;

/// The single component `.`.
pub open spec fn dot() -> Seq<u8> {
    seq![DOT_BYTE]
}

/// The single component `..`.
pub open spec fn dotdot() -> Seq<u8> {
    seq![DOT_BYTE, DOT_BYTE]
}

/// A path is absolute when it starts with a separator.
pub open spec fn is_absolute(s: Seq<u8>) -> bool {
    s.len() > 0 && s[0] == SEP
}

/// The pieces of `s` cut at every separator, in order. Cutting at a
/// separator closes the piece before it and opens an empty one, so
/// the result always holds one (possibly empty) piece more than `s`
/// holds separators.
pub open spec fn raw_split(s: Seq<u8>) -> Seq<Seq<u8>>
    decreases s.len(),
{
    if s.len() == 0 {
        seq![Seq::<u8>::empty()]
    } else if s.last() == SEP {
        raw_split(s.drop_last()).push(Seq::<u8>::empty())
    } else {
        let prev = raw_split(s.drop_last());
        prev.update(prev.len() - 1, prev.last().push(s.last()))
    }
}

/// The elements of `cs` whose length is nonzero, in order.
pub open spec fn keep_nonempty(cs: Seq<Seq<u8>>) -> Seq<Seq<u8>>
    decreases cs.len(),
{
    if cs.len() == 0 {
        Seq::empty()
    } else if cs.last().len() > 0 {
        keep_nonempty(cs.drop_last()).push(cs.last())
    } else {
        keep_nonempty(cs.drop_last())
    }
}

/// The components of a path: the nonempty pieces between separators.
/// Leading, trailing and repeated separators thus contribute nothing.
pub open spec fn components_of(s: Seq<u8>) -> Seq<Seq<u8>> {
    keep_nonempty(raw_split(s))
}

/// The `.`/`..` rules of an absolute path, applied left to right over
/// a stack: `.` is dropped, `..` removes the component before it and
/// is dropped at the root, anything else is kept.
pub open spec fn cleaned(cs: Seq<Seq<u8>>) -> Seq<Seq<u8>>
    decreases cs.len(),
{
    if cs.len() == 0 {
        Seq::empty()
    } else {
        let prev = cleaned(cs.drop_last());
        if cs.last() == dot() {
            prev
        } else if cs.last() == dotdot() {
            if prev.len() > 0 {
                prev.drop_last()
            } else {
                prev
            }
        } else {
            prev.push(cs.last())
        }
    }
}

/// The absolute path spelling the components `cs`: `/` when `cs` is
/// empty, else `/` before each component.
pub open spec fn join_absolute(cs: Seq<Seq<u8>>) -> Seq<u8>
    decreases cs.len(),
{
    if cs.len() == 0 {
        seq![SEP]
    } else if cs.len() == 1 {
        seq![SEP] + cs[0]
    } else {
        join_absolute(cs.drop_last()) + seq![SEP] + cs.last()
    }
}

/// What resolving `path` against the working directory `cwd` yields:
/// an already absolute path stands alone, a relative one is appended
/// to `cwd`; the combined bytes are split, cleaned and rejoined.
pub open spec fn resolved(cwd: Seq<u8>, path: Seq<u8>) -> Seq<u8> {
    let full = if is_absolute(path) {
        path
    } else {
        cwd + seq![SEP] + path
    };
    join_absolute(cleaned(components_of(full)))
}

/// The views of a sequence of byte vectors, elementwise.
pub open spec fn views_of(cs: Seq<Vec<u8>>) -> Seq<Seq<u8>> {
    Seq::new(cs.len(), |i: int| cs[i]@)
}

proof fn lemma_views_of_push(cs: Seq<Vec<u8>>, c: Vec<u8>)
    ensures
        views_of(cs.push(c)) == views_of(cs).push(c@),
{
    assert(views_of(cs.push(c)) =~= views_of(cs).push(c@));
}

proof fn lemma_views_of_drop_last(cs: Seq<Vec<u8>>)
    requires
        cs.len() > 0,
    ensures
        views_of(cs.drop_last()) == views_of(cs).drop_last(),
{
    assert(views_of(cs.drop_last()) =~= views_of(cs).drop_last());
}

proof fn lemma_raw_split_len(s: Seq<u8>)
    ensures
        raw_split(s).len() >= 1,
    decreases s.len(),
{
    if s.len() > 0 {
        lemma_raw_split_len(s.drop_last());
    }
}

/// Whether `s` names an absolute path.
pub fn is_absolute_path(s: &Vec<u8>) -> (r: bool)
    ensures
        r == is_absolute(s@),
{
    s.len() > 0 && s[0] == SEP
}

/// Appends the bytes of `src` to `out`.
fn append_bytes(out: &mut Vec<u8>, src: &Vec<u8>)
    ensures
        final(out)@ == old(out)@ + src@,
{
    let mut j: usize = 0;
    while j < src.len()
        invariant
            j <= src.len(),
            out@ == old(out)@ + src@.take(j as int),
        decreases src.len() - j,
    {
        out.push(src[j]);
        assert(old(out)@ + src@.take(j + 1) =~= (old(out)@ + src@.take(j as int)).push(
            src@[j as int],
        ));
        j += 1;
    }
    assert(src@.take(src@.len() as int) =~= src@);
}

/// A fresh copy of the bytes of `src`.
fn copy_bytes(src: &Vec<u8>) -> (r: Vec<u8>)
    ensures
        r@ == src@,
{
    let mut r: Vec<u8> = Vec::new();
    append_bytes(&mut r, src);
    assert(r@ =~= src@);
    r
}

/// Splits `s` at its separators and returns the nonempty components,
/// in order.
fn split_components(s: &Vec<u8>) -> (r: Vec<Vec<u8>>)
    ensures
        views_of(r@) == components_of(s@),
{
    let mut comps: Vec<Vec<u8>> = Vec::new();
    let mut cur: Vec<u8> = Vec::new();
    let mut i: usize = 0;
    while i < s.len()
        invariant
            i <= s@.len(),
            raw_split(s@.take(i as int)).len() >= 1,
            cur@ == raw_split(s@.take(i as int)).last(),
            views_of(comps@) == keep_nonempty(raw_split(s@.take(i as int)).drop_last()),
        decreases s@.len() - i,
    {
        proof {
            assert(s@.take(i + 1).drop_last() =~= s@.take(i as int));
            assert(s@.take(i + 1).last() == s@[i as int]);
            lemma_raw_split_len(s@.take(i + 1));
        }
        let ghost prev = raw_split(s@.take(i as int));
        if s[i] == SEP {
            assert(raw_split(s@.take(i + 1)) == prev.push(Seq::<u8>::empty()));
            assert(raw_split(s@.take(i + 1)).drop_last() =~= prev);
            if cur.len() > 0 {
                proof {
                    lemma_views_of_push(comps@, cur);
                }
                comps.push(cur);
            }
            cur = Vec::new();
        } else {
            assert(raw_split(s@.take(i + 1)) == prev.update(
                prev.len() - 1,
                prev.last().push(s@[i as int]),
            ));
            assert(raw_split(s@.take(i + 1)).drop_last() =~= prev.drop_last());
            cur.push(s[i]);
        }
        i += 1;
    }
    assert(s@.take(s@.len() as int) =~= s@);
    if cur.len() > 0 {
        proof {
            lemma_views_of_push(comps@, cur);
        }
        comps.push(cur);
    }
    comps
}

/// Whether `c` is the component `.`.
fn is_dot(c: &Vec<u8>) -> (r: bool)
    ensures
        r == (c@ == dot()),
{
    let r = c.len() == 1 && c[0] == DOT_BYTE;
    proof {
        if r {
            assert(c@ =~= dot());
        }
        if c@ == dot() {
            assert(c@.len() == 1 && c@[0] == DOT_BYTE);
        }
    }
    r
}

/// Whether `c` is the component `..`.
fn is_dotdot(c: &Vec<u8>) -> (r: bool)
    ensures
        r == (c@ == dotdot()),
{
    let r = c.len() == 2 && c[0] == DOT_BYTE && c[1] == DOT_BYTE;
    proof {
        if r {
            assert(c@ =~= dotdot());
        }
        if c@ == dotdot() {
            assert(c@.len() == 2 && c@[0] == DOT_BYTE && c@[1] == DOT_BYTE);
        }
    }
    r
}

/// Applies the `.`/`..` rules to the components `cs`, left to right.
fn clean_stack(cs: &Vec<Vec<u8>>) -> (r: Vec<Vec<u8>>)
    ensures
        views_of(r@) == cleaned(views_of(cs@)),
{
    let mut out: Vec<Vec<u8>> = Vec::new();
    let mut i: usize = 0;
    while i < cs.len()
        invariant
            i <= cs@.len(),
            views_of(out@) == cleaned(views_of(cs@).take(i as int)),
        decreases cs@.len() - i,
    {
        proof {
            assert(views_of(cs@).take(i + 1).drop_last() =~= views_of(cs@).take(i as int));
            assert(views_of(cs@).take(i + 1).last() == cs@[i as int]@);
        }
        let c = &cs[i];
        if is_dot(c) {
        } else if is_dotdot(c) {
            if out.len() > 0 {
                let ghost pre = out@;
                out.pop();
                proof {
                    assert(out@ =~= pre.drop_last());
                    lemma_views_of_drop_last(pre);
                }
            }
        } else {
            let copied = copy_bytes(c);
            proof {
                lemma_views_of_push(out@, copied);
            }
            out.push(copied);
        }
        i += 1;
    }
    assert(views_of(cs@).take(cs@.len() as int) =~= views_of(cs@));
    out
}

/// Renders the components `cs` as one absolute path.
fn join_abs(cs: &Vec<Vec<u8>>) -> (r: Vec<u8>)
    ensures
        r@ == join_absolute(views_of(cs@)),
{
    let mut out: Vec<u8> = Vec::new();
    out.push(SEP);
    assert(out@ =~= seq![SEP]);
    let mut i: usize = 0;
    while i < cs.len()
        invariant
            i <= cs@.len(),
            out@ == join_absolute(views_of(cs@).take(i as int)),
        decreases cs@.len() - i,
    {
        proof {
            assert(views_of(cs@).take(i + 1).drop_last() =~= views_of(cs@).take(i as int));
            assert(views_of(cs@).take(i + 1).last() == cs@[i as int]@);
        }
        if i > 0 {
            out.push(SEP);
            assert(out@ =~= join_absolute(views_of(cs@).take(i as int)) + seq![SEP]);
        }
        append_bytes(&mut out, &cs[i]);
        proof {
            if i == 0 {
                assert(views_of(cs@).take(1)[0] == cs@[0]@);
                assert(out@ =~= seq![SEP] + cs@[0]@);
            }
        }
        i += 1;
    }
    assert(views_of(cs@).take(cs@.len() as int) =~= views_of(cs@));
    out
}

/// Resolves `path` against the working directory `cwd` and returns
/// the canonical absolute form: an already absolute `path` stands
/// alone, a relative one is taken from `cwd`; redundant separators
/// and `.`/`..` components are removed. The result is always
/// absolute.
pub fn absolute_path(cwd: &Vec<u8>, path: &Vec<u8>) -> (r: Vec<u8>)
    ensures
        r@ == resolved(cwd@, path@),
        is_absolute(r@),
{
    let mut full: Vec<u8> = Vec::new();
    if is_absolute_path(path) {
        append_bytes(&mut full, path);
        assert(full@ =~= path@);
    } else {
        append_bytes(&mut full, cwd);
        full.push(SEP);
        append_bytes(&mut full, path);
        assert(full@ =~= cwd@ + seq![SEP] + path@);
    }
    let comps = split_components(&full);
    let clean = clean_stack(&comps);
    let r = join_abs(&clean);
    proof {
        lemma_join_absolute_is_absolute(views_of(clean@));
    }
    r
}

/// Every path spelt by [`join_absolute`] is absolute.
proof fn lemma_join_absolute_is_absolute(cs: Seq<Seq<u8>>)
    ensures
        is_absolute(join_absolute(cs)),
    decreases cs.len(),
{
    if cs.len() >= 2 {
        lemma_join_absolute_is_absolute(cs.drop_last());
    }
}

/// Cleaning is canonical: no component of a cleaned path is `.` or
/// `..`, so the result of [`absolute_path`] carries no redundant
/// segment.
pub proof fn lemma_cleaned_canonical(cs: Seq<Seq<u8>>)
    ensures
        forall|i: int|
            0 <= i < cleaned(cs).len() ==> cleaned(cs)[i] != dot() && cleaned(cs)[i] != dotdot(),
    decreases cs.len(),
{
    if cs.len() > 0 {
        lemma_cleaned_canonical(cs.drop_last());
        let prev = cleaned(cs.drop_last());
        let c = cs.last();
        if c == dot() {
        } else if c == dotdot() {
            if prev.len() > 0 {
                assert forall|i: int| 0 <= i < prev.drop_last().len() implies prev.drop_last()[i]
                    != dot() && prev.drop_last()[i] != dotdot() by {
                    assert(prev.drop_last()[i] == prev[i]);
                }
            }
        } else {
            assert forall|i: int| 0 <= i < prev.push(c).len() implies prev.push(c)[i] != dot()
                && prev.push(c)[i] != dotdot() by {
                if i < prev.len() {
                    assert(prev.push(c)[i] == prev[i]);
                } else {
                    assert(prev.push(c)[i] == c);
                }
            }
        }
    }
}

} // verus!
