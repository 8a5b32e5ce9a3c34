//! Path validation, file access limits and search-result filtering.

use vstd::prelude::*;
use vstd::string::*;

use crate::path::{ComponentModel, PathComponent, chars_of, component_models, components, file_name, path_components};

verus! {

broadcast use vstd::string::group_string_axioms;

/// Deepest directory nesting (in path components) that is accepted.
pub const MAX_DIRECTORY_DEPTH: usize = 32;

/// Longest path (in bytes) that is accepted.
pub const MAX_PATH_LENGTH: usize = 4096;

/// Most search results handed out by a filter.
pub const MAX_SEARCH_RESULTS: usize = 1000;

/// Why a path or a file was refused.
#[derive(Debug)]
pub enum SecurityError {
    /// The path is longer than `MAX_PATH_LENGTH` bytes.
    PathTooLong { length: usize },
    /// A component holds a NUL or a 0x01 character.
    IllegalCharacter { name: String },
    /// A `..` climbs above the start of the path.
    PathTraversal,
    /// The normalised path lies under none of the allowed roots.
    AccessDenied { path: String },
    /// The path has more than `MAX_DIRECTORY_DEPTH` components.
    DirectoryTooDeep { depth: usize },
    /// The file is larger than the reader's limit.
    FileTooLarge { size: u64, limit: u64 },
}

// ---------------------------------------------------------------------------
// Normalisation model
// ---------------------------------------------------------------------------

/// What normalising a path comes to.
pub enum NormalizeModel {
    /// The path is absolute or not, and keeps these names.
    Normalized(bool, Seq<Seq<char>>),
    /// A name holds a forbidden character.
    Illegal(Seq<char>),
    /// A `..` had nothing left to remove.
    Traversal,
}

pub open spec fn has_forbidden_char(name: Seq<char>) -> bool {
    name.contains('\0') || name.contains('\x01')
}

/// Normalises components left to right: `.` is dropped, `..` removes the
/// previous name (and fails when there is none), the root makes the path
/// absolute, and names are kept unless they hold a forbidden character.
pub open spec fn normalize_components(cs: Seq<ComponentModel>) -> NormalizeModel
    decreases cs.len(),
{
    if cs.len() == 0 {
        NormalizeModel::Normalized(false, Seq::empty())
    } else {
        match normalize_components(cs.drop_last()) {
            NormalizeModel::Normalized(abs, names) => match cs.last() {
                ComponentModel::Normal(n) => if has_forbidden_char(n) {
                    NormalizeModel::Illegal(n)
                } else {
                    NormalizeModel::Normalized(abs, names.push(n))
                },
                ComponentModel::CurDir => NormalizeModel::Normalized(abs, names),
                ComponentModel::ParentDir => if names.len() > 0 {
                    NormalizeModel::Normalized(abs, names.drop_last())
                } else {
                    NormalizeModel::Traversal
                },
                ComponentModel::RootDir => NormalizeModel::Normalized(true, Seq::empty()),
            },
            failure => failure,
        }
    }
}

/// Names joined by `/`.
pub open spec fn join_names(names: Seq<Seq<char>>) -> Seq<char>
    decreases names.len(),
{
    if names.len() == 0 {
        Seq::empty()
    } else if names.len() == 1 {
        names[0]
    } else {
        join_names(names.drop_last()) + seq!['/'] + names.last()
    }
}

/// The text of a normalised path.
pub open spec fn render_path(absolute: bool, names: Seq<Seq<char>>) -> Seq<char> {
    if absolute {
        seq!['/'] + join_names(names)
    } else {
        join_names(names)
    }
}

pub open spec fn is_prefix_of<A>(a: Seq<A>, b: Seq<A>) -> bool {
    a.len() <= b.len() && b.take(a.len() as int) == a
}

/// `path` lies under one of `roots`, compared component by component;
/// an empty list of roots admits every path.
pub open spec fn within_roots(roots: Seq<Seq<char>>, path: Seq<char>) -> bool {
    roots.len() == 0 || exists|i: int|
        0 <= i < roots.len() && #[trigger] is_prefix_of(components(roots[i]), components(path))
}

/// The outcome of validating a path.
pub enum PathVerdict {
    TooLong(nat),
    Illegal(Seq<char>),
    Traversal,
    Denied(Seq<char>),
    Accepted(Seq<char>),
}

/// Validation: the length in bytes first, then normalisation, then the roots.
pub open spec fn validate_path(roots: Seq<Seq<char>>, path: &str) -> PathVerdict {
    if path.len() > MAX_PATH_LENGTH {
        PathVerdict::TooLong(path.len() as nat)
    } else {
        match normalize_components(components(path@)) {
            NormalizeModel::Illegal(n) => PathVerdict::Illegal(n),
            NormalizeModel::Traversal => PathVerdict::Traversal,
            NormalizeModel::Normalized(abs, names) => {
                let p = render_path(abs, names);
                if within_roots(roots, p) {
                    PathVerdict::Accepted(p)
                } else {
                    PathVerdict::Denied(p)
                }
            },
        }
    }
}

/// `r` is what a normalisation result `m` is reported as.
pub open spec fn normalize_result_matches(r: Result<String, SecurityError>, m: NormalizeModel) -> bool {
    match m {
        NormalizeModel::Normalized(abs, names) => r is Ok && r->Ok_0@ == render_path(abs, names),
        NormalizeModel::Illegal(n) => r matches Err(SecurityError::IllegalCharacter { name }) && name@ == n,
        NormalizeModel::Traversal => r matches Err(SecurityError::PathTraversal),
    }
}

/// `r` is what a validation verdict `v` is reported as.
pub open spec fn verdict_matches(r: Result<String, SecurityError>, v: PathVerdict) -> bool {
    match v {
        PathVerdict::TooLong(n) => r matches Err(SecurityError::PathTooLong { length }) && length == n,
        PathVerdict::Illegal(n) => r matches Err(SecurityError::IllegalCharacter { name }) && name@ == n,
        PathVerdict::Traversal => r matches Err(SecurityError::PathTraversal),
        PathVerdict::Denied(p) => r matches Err(SecurityError::AccessDenied { path }) && path@ == p,
        PathVerdict::Accepted(p) => r is Ok && r->Ok_0@ == p,
    }
}

pub open spec fn string_views(v: Seq<String>) -> Seq<Seq<char>> {
    v.map_values(|s: String| s@)
}

// ---------------------------------------------------------------------------
// Helpers on characters
// ---------------------------------------------------------------------------

fn has_forbidden_char_exec(name: &String) -> (r: bool)
    ensures
        r == has_forbidden_char(name@),
{
    let chars = chars_of(name.as_str());
    let n = chars.len();
    let mut i: usize = 0;
    while i < n
        invariant
            n == chars.len(),
            chars@ == name@,
            i <= n,
            forall|j: int| 0 <= j < i ==> chars@[j] != '\0' && chars@[j] != '\x01',
        decreases n - i,
    {
        if chars[i] == '\0' || chars[i] == '\x01' {
            assert(name@.contains(chars@[i as int]));
            return true;
        }
        i = i + 1;
    }
    assert(!name@.contains('\0'));
    assert(!name@.contains('\x01'));
    false
}

fn same_component(a: &PathComponent, b: &PathComponent) -> (r: bool)
    ensures
        r == (a@ == b@),
{
    match (a, b) {
        (PathComponent::RootDir, PathComponent::RootDir) => true,
        (PathComponent::CurDir, PathComponent::CurDir) => true,
        (PathComponent::ParentDir, PathComponent::ParentDir) => true,
        (PathComponent::Normal(x), PathComponent::Normal(y)) => x.eq(y),
        _ => false,
    }
}

fn components_start_with(path: &Vec<PathComponent>, base: &Vec<PathComponent>) -> (r: bool)
    ensures
        r == is_prefix_of(component_models(base@), component_models(path@)),
{
    if base.len() > path.len() {
        return false;
    }
    let n = base.len();
    let mut i: usize = 0;
    while i < n
        invariant
            n == base.len(),
            n <= path.len(),
            i <= n,
            forall|j: int| 0 <= j < i ==> path@[j]@ == base@[j]@,
        decreases n - i,
    {
        if !same_component(&path[i], &base[i]) {
            assert(component_models(path@).take(n as int)[i as int] != component_models(base@)[i as int]);
            return false;
        }
        i = i + 1;
    }
    assert(component_models(path@).take(n as int) =~= component_models(base@));
    true
}

pub(crate) proof fn lemma_normalize_failure_persists(cs: Seq<ComponentModel>, k: int)
    requires
        0 <= k <= cs.len(),
        !(normalize_components(cs.take(k)) is Normalized),
    ensures
        normalize_components(cs) == normalize_components(cs.take(k)),
    decreases cs.len() - k,
{
    if k < cs.len() {
        assert(cs.take(k + 1).drop_last() =~= cs.take(k));
        lemma_normalize_failure_persists(cs, k + 1);
    } else {
        assert(cs.take(k) =~= cs);
    }
}

/// Writes out a normalised path.
fn render_names(absolute: bool, names: &Vec<String>) -> (r: String)
    ensures
        r@ == render_path(absolute, string_views(names@)),
{
    let ghost views = string_views(names@);
    let mut out = if absolute {
        let s = String::from_str("/");
        proof {
            reveal_strlit("/");
        }
        s
    } else {
        String::new()
    };
    let ghost lead: Seq<char> = if absolute { seq!['/'] } else { Seq::empty() };
    assert(out@ =~= lead);
    assert(views.take(0) =~= Seq::<Seq<char>>::empty());
    let n = names.len();
    let mut i: usize = 0;
    while i < n
        invariant
            n == names.len(),
            i <= n,
            views == string_views(names@),
            out@ == lead + join_names(views.take(i as int)),
        decreases n - i,
    {
        assert(views.take(i as int + 1).drop_last() =~= views.take(i as int));
        if i > 0 {
            out.append("/");
            proof {
                reveal_strlit("/");
            }
        }
        out.append(names[i].as_str());
        proof {
            if i == 0 {
                assert(views.take(1) =~= seq![views[0]]);
            }
            assert(out@ =~= lead + join_names(views.take(i as int + 1)));
        }
        i = i + 1;
    }
    assert(views.take(n as int) =~= views);
    proof {
        if absolute {
            assert(render_path(absolute, views) =~= lead + join_names(views));
        }
    }
    out
}

// ---------------------------------------------------------------------------
// PathValidator
// ---------------------------------------------------------------------------

/// Checks that paths stay under a set of allowed roots.
pub struct PathValidator {
    allowed_roots: Vec<String>,
}

impl PathValidator {
    /// The allowed roots.
    pub closed spec fn roots(&self) -> Seq<Seq<char>> {
        string_views(self.allowed_roots@)
    }

    /// A validator for these roots; no roots admits every path.
    pub fn new(allowed_roots: Vec<String>) -> (r: Self)
        ensures
            r.roots() == string_views(allowed_roots@),
    {
        PathValidator { allowed_roots }
    }

    /// Removes `.` and `..` components from a path.
    pub fn normalize_path(&self, path: &str) -> (r: Result<String, SecurityError>)
        ensures
            normalize_result_matches(r, normalize_components(components(path@))),
    {
        let comps = path_components(path);
        let n = comps.len();
        let mut absolute = false;
        let mut names: Vec<String> = Vec::new();
        let mut i: usize = 0;
        assert(component_models(comps@).take(0) =~= Seq::<ComponentModel>::empty());
        assert(string_views(names@) =~= Seq::<Seq<char>>::empty());
        while i < n
            invariant
                n == comps.len(),
                i <= n,
                component_models(comps@) == components(path@),
                normalize_components(component_models(comps@).take(i as int))
                    == NormalizeModel::Normalized(absolute, string_views(names@)),
            decreases n - i,
        {
            let ghost prefix = component_models(comps@).take(i as int + 1);
            assert(prefix.drop_last() =~= component_models(comps@).take(i as int));
            assert(prefix.last() == comps@[i as int]@);
            match &comps[i] {
                PathComponent::Normal(name) => {
                    if has_forbidden_char_exec(name) {
                        proof {
                            let k = i as int + 1;
                            lemma_normalize_failure_persists(component_models(comps@), k);
                            assert(component_models(comps@).take(n as int) =~= component_models(comps@));
                        }
                        return Err(SecurityError::IllegalCharacter { name: name.clone() });
                    }
                    let ghost before = names@;
                    names.push(name.clone());
                    assert(string_views(names@) =~= string_views(before).push(name@));
                },
                PathComponent::CurDir => {},
                PathComponent::ParentDir => {
                    if names.len() == 0 {
                        proof {
                            lemma_normalize_failure_persists(component_models(comps@), i as int + 1);
                            assert(component_models(comps@).take(n as int) =~= component_models(comps@));
                        }
                        return Err(SecurityError::PathTraversal);
                    }
                    let ghost before = names@;
                    names.pop();
                    assert(string_views(names@) =~= string_views(before).drop_last());
                },
                PathComponent::RootDir => {
                    absolute = true;
                    names = Vec::new();
                    assert(string_views(names@) =~= Seq::<Seq<char>>::empty());
                },
            }
            i = i + 1;
        }
        assert(component_models(comps@).take(n as int) =~= component_models(comps@));
        Ok(render_names(absolute, &names))
    }

    /// Accepts a path that lies under one of the allowed roots (any path
    /// when there are none).
    pub fn validate_within_allowed_roots(&self, path: &str) -> (r: Result<(), SecurityError>)
        ensures
            r is Ok <==> within_roots(self.roots(), path@),
            r matches Err(e) ==> e matches SecurityError::AccessDenied { path: p } && p@ == path@,
    {
        let n = self.allowed_roots.len();
        if n == 0 {
            return Ok(());
        }
        let path_comps = path_components(path);
        let mut i: usize = 0;
        while i < n
            invariant
                n == self.allowed_roots.len(),
                n > 0,
                i <= n,
                component_models(path_comps@) == components(path@),
                forall|j: int|
                    0 <= j < i ==> !#[trigger] is_prefix_of(
                        components(self.roots()[j]),
                        components(path@),
                    ),
            decreases n - i,
        {
            let root_comps = path_components(self.allowed_roots[i].as_str());
            assert(self.roots()[i as int] == self.allowed_roots@[i as int]@);
            if components_start_with(&path_comps, &root_comps) {
                return Ok(());
            }
            i = i + 1;
        }
        Err(SecurityError::AccessDenied { path: String::from_str(path) })
    }

    /// Validates a path and returns it normalised: it must be at most
    /// `MAX_PATH_LENGTH` bytes long, normalise without error and lie under
    /// an allowed root.
    pub fn validate_and_normalize(&self, path: &str) -> (r: Result<String, SecurityError>)
        ensures
            verdict_matches(r, validate_path(self.roots(), path)),
    {
        if path.len() > MAX_PATH_LENGTH {
            return Err(SecurityError::PathTooLong { length: path.len() });
        }
        let normalized = match self.normalize_path(path) {
            Ok(p) => p,
            Err(e) => return Err(e),
        };
        match self.validate_within_allowed_roots(normalized.as_str()) {
            Ok(()) => Ok(normalized),
            Err(e) => Err(e),
        }
    }

    /// Accepts a path of at most `MAX_DIRECTORY_DEPTH` components.
    pub fn validate_directory_depth(&self, path: &str) -> (r: Result<(), SecurityError>)
        ensures
            r is Ok <==> components(path@).len() <= MAX_DIRECTORY_DEPTH,
            r matches Err(e) ==> e matches SecurityError::DirectoryTooDeep { depth }
                && depth == components(path@).len(),
    {
        let depth = path_components(path).len();
        if depth > MAX_DIRECTORY_DEPTH {
            return Err(SecurityError::DirectoryTooDeep { depth });
        }
        Ok(())
    }
}

// ---------------------------------------------------------------------------
// SecureFileReader
// ---------------------------------------------------------------------------

/// The checks made before a file is read: its path must validate, and its
/// size must not exceed a limit.
pub struct SecureFileReader {
    path_validator: PathValidator,
    max_file_size: u64,
}

impl SecureFileReader {
    /// The roots under which files may be read.
    pub closed spec fn roots(&self) -> Seq<Seq<char>> {
        self.path_validator.roots()
    }

    /// The largest file size accepted, in bytes.
    pub closed spec fn size_limit(&self) -> u64 {
        self.max_file_size
    }

    /// A reader for files under `allowed_roots` of at most `max_file_size` bytes.
    pub fn new(allowed_roots: Vec<String>, max_file_size: u64) -> (r: Self)
        ensures
            r.roots() == string_views(allowed_roots@),
            r.size_limit() == max_file_size,
    {
        SecureFileReader { path_validator: PathValidator::new(allowed_roots), max_file_size }
    }

    /// Validates the path of a file to be read and returns it normalised.
    pub fn check_path(&self, file_path: &str) -> (r: Result<String, SecurityError>)
        ensures
            verdict_matches(r, validate_path(self.roots(), file_path)),
    {
        self.path_validator.validate_and_normalize(file_path)
    }

    /// Accepts a file of `size` bytes when it does not exceed the limit.
    pub fn check_file_size(&self, size: u64) -> (r: Result<(), SecurityError>)
        ensures
            r is Ok <==> size <= self.size_limit(),
            r matches Err(e) ==> e matches SecurityError::FileTooLarge { size: s, limit }
                && s == size && limit == self.size_limit(),
    {
        if size > self.max_file_size {
            return Err(SecurityError::FileTooLarge { size, limit: self.max_file_size });
        }
        Ok(())
    }
}

// ---------------------------------------------------------------------------
// SearchResultFilter
// ---------------------------------------------------------------------------

/// The lower-case form of `s`, as `str::to_lowercase` computes it.
pub uninterp spec fn lowercase(s: Seq<char>) -> Seq<char>;

/// Calls `str::to_lowercase`; the result is the Unicode lower-case mapping
/// of the input, a function of the input alone, named `lowercase`.
#[verifier::external_body]
pub(crate) fn to_lowercase(s: &str) -> (r: String)
    ensures
        r@ == lowercase(s@),
{
    s.to_lowercase()
}

/// `needle` occurs in `hay` as a run of consecutive characters.
pub open spec fn contains_seq(hay: Seq<char>, needle: Seq<char>) -> bool {
    exists|i: int|
        0 <= i && i + needle.len() <= hay.len() && #[trigger] hay.subrange(i, i + needle.len())
            == needle
}

/// Substring search.
pub(crate) fn contains_chars(hay: &Vec<char>, needle: &Vec<char>) -> (r: bool)
    ensures
        r == contains_seq(hay@, needle@),
{
    let n = hay.len();
    let m = needle.len();
    if m > n {
        return false;
    }
    let mut i: usize = 0;
    while i <= n - m
        invariant
            n == hay.len(),
            m == needle.len(),
            m <= n,
            i <= n - m + 1,
            forall|k: int| 0 <= k < i ==> #[trigger] hay@.subrange(k, k + m) != needle@,
        decreases n - m + 1 - i,
    {
        let mut j: usize = 0;
        while j < m && hay[i + j] == needle[j]
            invariant
                n == hay.len(),
                m == needle.len(),
                i + m <= n,
                j <= m,
                forall|t: int| 0 <= t < j ==> hay@[i + t] == needle@[t],
            decreases m - j,
        {
            j = j + 1;
        }
        if j == m {
            assert(hay@.subrange(i as int, i + m) =~= needle@);
            return true;
        }
        assert(hay@.subrange(i as int, i + m)[j as int] != needle@[j as int]);
        i = i + 1;
    }
    assert forall|k: int| 0 <= k && k + needle@.len() <= hay@.len() implies #[trigger] hay@.subrange(
        k,
        k + needle@.len(),
    ) != needle@ by {
        assert(k < i);
    }
    false
}

/// The path fragments that make a search result unsafe to hand out.
pub open spec fn default_forbidden_patterns() -> Seq<Seq<char>> {
    seq![
        "/.git/"@,
        "/.ssh/"@,
        "/etc/passwd"@,
        "/etc/shadow"@,
        "/.env"@,
        "/id_rsa"@,
        "/id_dsa"@,
        "/.aws/"@,
        "/config/"@,
    ]
}

/// Hidden file names the hidden-file rule lets through. A forbidden pattern
/// may still refuse them: `/.env` refuses every `…/.env.example`.
pub open spec fn hidden_exceptions() -> Seq<Seq<char>> {
    seq![".gitignore"@, ".env.example"@, ".dockerignore"@]
}

/// Some forbidden pattern occurs in the lower-cased path.
pub open spec fn hits_forbidden_pattern(patterns: Seq<Seq<char>>, path: Seq<char>) -> bool {
    exists|k: int| 0 <= k < patterns.len() && #[trigger] contains_seq(lowercase(path), patterns[k])
}

/// A file name that starts with `.`, has more after it, and is no exception.
pub open spec fn is_refused_hidden_name(name: Seq<char>) -> bool {
    name.len() > 1 && name[0] == '.' && !hidden_exceptions().contains(name)
}

/// A search result may be handed out: no forbidden pattern occurs in it
/// (ignoring case), and it does not name a hidden file other than the
/// exceptions.
pub open spec fn path_allowed(patterns: Seq<Seq<char>>, path: Seq<char>) -> bool {
    &&& !hits_forbidden_pattern(patterns, path)
    &&& !(file_name(path) matches Some(f) && is_refused_hidden_name(f))
}

/// The first `n` elements of `s`, or all of them when there are fewer.
pub open spec fn take_at_most<A>(s: Seq<A>, n: nat) -> Seq<A> {
    if s.len() <= n {
        s
    } else {
        s.take(n as int)
    }
}

/// The results that may be handed out, in order, at most `max` of them.
pub open spec fn filtered_results(
    patterns: Seq<Seq<char>>,
    max: nat,
    results: Seq<Seq<char>>,
) -> Seq<Seq<char>> {
    take_at_most(results.filter(|p: Seq<char>| path_allowed(patterns, p)), max)
}

/// Filters search results before they leave the gateway.
pub struct SearchResultFilter {
    max_results: usize,
    forbidden_patterns: Vec<String>,
}

impl SearchResultFilter {
    /// The most results handed out.
    pub closed spec fn max_results(&self) -> nat {
        self.max_results as nat
    }

    /// The forbidden path fragments.
    pub closed spec fn patterns(&self) -> Seq<Seq<char>> {
        string_views(self.forbidden_patterns@)
    }

    /// A filter with the default patterns and `MAX_SEARCH_RESULTS`.
    pub fn new() -> (r: Self)
        ensures
            r.max_results() == MAX_SEARCH_RESULTS,
            r.patterns() == default_forbidden_patterns(),
    {
        let mut forbidden_patterns: Vec<String> = Vec::new();
        forbidden_patterns.push(String::from_str("/.git/"));
        forbidden_patterns.push(String::from_str("/.ssh/"));
        forbidden_patterns.push(String::from_str("/etc/passwd"));
        forbidden_patterns.push(String::from_str("/etc/shadow"));
        forbidden_patterns.push(String::from_str("/.env"));
        forbidden_patterns.push(String::from_str("/id_rsa"));
        forbidden_patterns.push(String::from_str("/id_dsa"));
        forbidden_patterns.push(String::from_str("/.aws/"));
        forbidden_patterns.push(String::from_str("/config/"));
        let r = SearchResultFilter { max_results: MAX_SEARCH_RESULTS, forbidden_patterns };
        assert(r.patterns() =~= default_forbidden_patterns());
        r
    }

    /// Tells whether a search result may be handed out.
    pub fn is_path_allowed(&self, path: &str) -> (r: bool)
        ensures
            r == path_allowed(self.patterns(), path@),
    {
        let lower = to_lowercase(path);
        let lower_chars = chars_of(lower.as_str());
        let n = self.forbidden_patterns.len();
        let mut k: usize = 0;
        while k < n
            invariant
                n == self.forbidden_patterns.len(),
                k <= n,
                lower_chars@ == lowercase(path@),
                forall|j: int|
                    0 <= j < k ==> !#[trigger] contains_seq(lowercase(path@), self.patterns()[j]),
            decreases n - k,
        {
            let pattern_chars = chars_of(self.forbidden_patterns[k].as_str());
            assert(self.patterns()[k as int] == self.forbidden_patterns@[k as int]@);
            if contains_chars(&lower_chars, &pattern_chars) {
                return false;
            }
            k = k + 1;
        }
        let comps = path_components(path);
        let c = comps.len();
        if c > 0 {
            assert(component_models(comps@).last() == comps@[c - 1]@);
            match &comps[c - 1] {
                PathComponent::Normal(name) => {
                    let name_chars = chars_of(name.as_str());
                    if name_chars.len() > 1 && name_chars[0] == '.' {
                        if !is_hidden_exception(name) {
                            return false;
                        }
                    }
                },
                _ => {},
            }
        }
        true
    }

    /// Keeps the results that may be handed out, in order, at most
    /// `max_results` of them.
    pub fn filter_results(&self, results: Vec<String>) -> (r: Vec<String>)
        ensures
            string_views(r@) == filtered_results(
                self.patterns(),
                self.max_results(),
                string_views(results@),
            ),
    {
        let ghost views = string_views(results@);
        let ghost pred = |p: Seq<char>| path_allowed(self.patterns(), p);
        let mut out: Vec<String> = Vec::new();
        let n = results.len();
        let mut i: usize = 0;
        assert(views.take(0) =~= Seq::<Seq<char>>::empty());
        assert(string_views(out@) =~= Seq::<Seq<char>>::empty());
        while i < n
            invariant
                n == results.len(),
                i <= n,
                views == string_views(results@),
                pred == (|p: Seq<char>| path_allowed(self.patterns(), p)),
                string_views(out@) == take_at_most(views.take(i as int).filter(pred), self.max_results()),
            decreases n - i,
        {
            let ghost prev = views.take(i as int).filter(pred);
            assert(views.take(i as int + 1).drop_last() =~= views.take(i as int));
            assert(views.take(i as int + 1).filter(pred) == if pred(views[i as int]) {
                prev.push(views[i as int])
            } else {
                prev
            }) by {
                reveal(Seq::filter);
            }
            let allowed = self.is_path_allowed(results[i].as_str());
            let ghost before = out@;
            if out.len() < self.max_results && allowed {
                out.push(results[i].clone());
                assert(string_views(out@) =~= string_views(before).push(views[i as int]));
            }
            assert(take_at_most(views.take(i as int + 1).filter(pred), self.max_results())
                =~= string_views(out@));
            i = i + 1;
        }
        assert(views.take(n as int) =~= views);
        out
    }
}

impl Default for SearchResultFilter {
    fn default() -> (r: Self)
        ensures
            r.max_results() == MAX_SEARCH_RESULTS,
            r.patterns() == default_forbidden_patterns(),
    {
        SearchResultFilter::new()
    }
}

/// The name is one of the exceptions to the hidden-file rule.
fn is_hidden_exception(name: &String) -> (r: bool)
    ensures
        r == hidden_exceptions().contains(name@),
{
    let a = String::from_str(".gitignore");
    let b = String::from_str(".env.example");
    let c = String::from_str(".dockerignore");
    let r = name.eq(&a) || name.eq(&b) || name.eq(&c);
    proof {
        let h = hidden_exceptions();
        if r {
            if name@ == a@ {
                assert(h[0] == name@);
            } else if name@ == b@ {
                assert(h[1] == name@);
            } else {
                assert(h[2] == name@);
            }
        } else {
            assert forall|i: int| 0 <= i < h.len() implies h[i] != name@ by {}
        }
    }
    r
}

} // verus!
