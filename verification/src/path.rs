//! Unix path parsing: splitting a path string into its components the way
//! `std::path::Path::components` does on Unix targets.

use vstd::prelude::*;
use vstd::string::*;

verus! {

broadcast use vstd::string::group_string_axioms;

/// The mathematical model of a path component.
pub enum ComponentModel {
    RootDir,
    CurDir,
    ParentDir,
    Normal(Seq<char>),
}

/// A path component.
#[derive(Debug)]
pub enum PathComponent {
    /// The leading `/` of an absolute path.
    RootDir,
    /// A leading `.` of a relative path.
    CurDir,
    /// A `..` component.
    ParentDir,
    /// Any other, non-empty component.
    Normal(String),
}

impl View for PathComponent {
    type V = ComponentModel;

    open spec fn view(&self) -> ComponentModel {
        match self {
            PathComponent::RootDir => ComponentModel::RootDir,
            PathComponent::CurDir => ComponentModel::CurDir,
            PathComponent::ParentDir => ComponentModel::ParentDir,
            PathComponent::Normal(s) => ComponentModel::Normal(s@),
        }
    }
}

/// The models of a sequence of components.
pub open spec fn component_models(cs: Seq<PathComponent>) -> Seq<ComponentModel> {
    cs.map_values(|c: PathComponent| c@)
}

/// `s` split at every `/` (as `str::split('/')` does): always at least one piece.
pub open spec fn split_slash(s: Seq<char>) -> Seq<Seq<char>>
    decreases s.len(),
{
    if s.len() == 0 {
        seq![Seq::<char>::empty()]
    } else {
        let prev = split_slash(s.drop_last());
        if s.last() == '/' {
            prev.push(Seq::<char>::empty())
        } else {
            prev.update(prev.len() - 1, prev.last().push(s.last()))
        }
    }
}

pub open spec fn dot() -> Seq<char> {
    seq!['.']
}

pub open spec fn dot_dot() -> Seq<char> {
    seq!['.', '.']
}

/// The component (if any) that one piece between slashes stands for;
/// `first` tells whether it is the first piece of the path.
pub open spec fn piece_component(piece: Seq<char>, first: bool) -> Seq<ComponentModel> {
    if piece.len() == 0 {
        Seq::empty()
    } else if piece == dot() {
        if first {
            seq![ComponentModel::CurDir]
        } else {
            Seq::empty()
        }
    } else if piece == dot_dot() {
        seq![ComponentModel::ParentDir]
    } else {
        seq![ComponentModel::Normal(piece)]
    }
}

pub open spec fn pieces_components(pieces: Seq<Seq<char>>) -> Seq<ComponentModel>
    decreases pieces.len(),
{
    if pieces.len() == 0 {
        Seq::empty()
    } else {
        pieces_components(pieces.drop_last()) + piece_component(pieces.last(), pieces.len() == 1)
    }
}

pub open spec fn is_absolute(s: Seq<char>) -> bool {
    s.len() > 0 && s[0] == '/'
}

pub open spec fn root_components(s: Seq<char>) -> Seq<ComponentModel> {
    if is_absolute(s) {
        seq![ComponentModel::RootDir]
    } else {
        Seq::empty()
    }
}

/// The components of a Unix path: a leading root, then the non-empty pieces
/// between slashes, where `.` counts only as the very first piece of a
/// relative path and `..` is the parent directory.
pub open spec fn components(s: Seq<char>) -> Seq<ComponentModel> {
    root_components(s) + pieces_components(split_slash(s))
}

/// The last component, when it is a name.
pub open spec fn file_name(s: Seq<char>) -> Option<Seq<char>> {
    let cs = components(s);
    if cs.len() > 0 && cs.last() is Normal {
        Some(cs.last()->Normal_0)
    } else {
        None
    }
}

proof fn lemma_split_slash_step(s: Seq<char>, i: int, done: Seq<Seq<char>>, start: int)
    requires
        0 <= start <= i < s.len(),
        split_slash(s.take(i)) == done.push(s.subrange(start, i)),
    ensures
        s[i] == '/' ==> split_slash(s.take(i + 1)) == done.push(s.subrange(start, i)).push(
            s.subrange(i + 1, i + 1),
        ),
        s[i] != '/' ==> split_slash(s.take(i + 1)) == done.push(s.subrange(start, i + 1)),
{
    assert(s.take(i + 1).drop_last() =~= s.take(i));
    assert(s.take(i + 1).last() == s[i]);
    assert(s.subrange(i + 1, i + 1) =~= Seq::<char>::empty());
    assert(s.subrange(start, i).push(s[i]) =~= s.subrange(start, i + 1));
    let prev = done.push(s.subrange(start, i));
    if s[i] != '/' {
        assert(prev.update(prev.len() - 1, prev.last().push(s[i])) =~= done.push(
            s.subrange(start, i + 1),
        ));
    }
}

pub(crate) fn chars_of(s: &str) -> (chars: Vec<char>)
    ensures
        chars@ == s@,
{
    let mut chars: Vec<char> = Vec::new();
    for c in it: s.chars()
        invariant
            chars@ == it.seq().take(it.index() as int),
            it.seq() == s@,
    {
        chars.push(c);
        proof {
            assert(it.seq().take(it.index() as int + 1) =~= chars@);
        }
    }
    chars
}

fn is_dot_piece(chars: &Vec<char>, start: usize, end: usize) -> (r: bool)
    requires
        start <= end <= chars.len(),
    ensures
        r == (chars@.subrange(start as int, end as int) == dot()),
{
    if end - start == 1 && chars[start] == '.' {
        assert(chars@.subrange(start as int, end as int) =~= dot());
        true
    } else {
        let ghost sub = chars@.subrange(start as int, end as int);
        if end - start == 1 {
            assert(sub[0] != dot()[0]);
        } else {
            assert(sub.len() != dot().len());
        }
        false
    }
}

fn is_dot_dot_piece(chars: &Vec<char>, start: usize, end: usize) -> (r: bool)
    requires
        start <= end <= chars.len(),
    ensures
        r == (chars@.subrange(start as int, end as int) == dot_dot()),
{
    if end - start == 2 && chars[start] == '.' && chars[start + 1] == '.' {
        assert(chars@.subrange(start as int, end as int) =~= dot_dot());
        true
    } else {
        if end - start == 2 {
            let ghost sub = chars@.subrange(start as int, end as int);
            assert(sub[0] != dot_dot()[0] || sub[1] != dot_dot()[1]);
        } else {
            assert(chars@.subrange(start as int, end as int).len() != dot_dot().len());
        }
        false
    }
}

/// Appends the component that the piece `path[start..end]` stands for.
fn push_piece(
    comps: &mut Vec<PathComponent>,
    path: &str,
    chars: &Vec<char>,
    start: usize,
    end: usize,
    first: bool,
)
    requires
        chars@ == path@,
        start <= end <= chars.len(),
    ensures
        component_models(final(comps)@) == component_models(old(comps)@) + piece_component(
            path@.subrange(start as int, end as int),
            first,
        ),
{
    let ghost piece = path@.subrange(start as int, end as int);
    let ghost before = old(comps)@;
    if start == end {
        assert(piece.len() == 0);
    } else if is_dot_piece(chars, start, end) {
        if first {
            comps.push(PathComponent::CurDir);
        }
    } else if is_dot_dot_piece(chars, start, end) {
        comps.push(PathComponent::ParentDir);
    } else {
        let name = String::from_str(path.substring_char(start, end));
        comps.push(PathComponent::Normal(name));
    }
    assert(component_models(comps@) =~= component_models(before) + piece_component(piece, first));
}

/// Splits a path into its components, as `Path::components` does on Unix.
pub fn path_components(path: &str) -> (comps: Vec<PathComponent>)
    ensures
        component_models(comps@) == components(path@),
{
    let chars = chars_of(path);
    let n = chars.len();
    let mut comps: Vec<PathComponent> = Vec::new();
    if n > 0 && chars[0] == '/' {
        comps.push(PathComponent::RootDir);
    }
    assert(component_models(comps@) =~= root_components(path@));
    let mut start: usize = 0;
    let mut first = true;
    let ghost mut done: Seq<Seq<char>> = Seq::empty();
    let mut i: usize = 0;
    assert(path@.take(0) =~= Seq::<char>::empty());
    assert(path@.subrange(0, 0) =~= Seq::<char>::empty());
    assert(split_slash(path@.take(0)) =~= done.push(path@.subrange(0, 0)));
    while i < n
        invariant
            chars@ == path@,
            n == chars.len(),
            start <= i <= n,
            first == (done.len() == 0),
            split_slash(path@.take(i as int)) == done.push(path@.subrange(start as int, i as int)),
            component_models(comps@) == root_components(path@) + pieces_components(done),
        decreases n - i,
    {
        proof {
            lemma_split_slash_step(path@, i as int, done, start as int);
        }
        if chars[i] == '/' {
            push_piece(&mut comps, path, &chars, start, i, first);
            proof {
                let d2 = done.push(path@.subrange(start as int, i as int));
                assert(d2.drop_last() =~= done);
                assert(root_components(path@) + pieces_components(d2) =~= root_components(path@)
                    + pieces_components(done) + piece_component(
                    path@.subrange(start as int, i as int),
                    first,
                ));
                done = d2;
            }
            start = i + 1;
            first = false;
        }
        i = i + 1;
    }
    push_piece(&mut comps, path, &chars, start, n, first);
    proof {
        let d2 = done.push(path@.subrange(start as int, n as int));
        assert(d2.drop_last() =~= done);
        assert(path@.take(n as int) =~= path@);
        assert(root_components(path@) + pieces_components(d2) =~= root_components(path@)
            + pieces_components(done) + piece_component(
            path@.subrange(start as int, n as int),
            first,
        ));
    }
    comps
}

} // verus!
