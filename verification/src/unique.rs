//! The uniqueness search behind [`crate::upath`].
//!
//! Whether a path exists is a question for the file system, so the search is
//! a state machine: [`resolve`] takes a path and whether it exists, and gives
//! either the path itself or a [`Search`]; the caller asks the file system
//! whether [`Search::candidate`] exists and reports the answer to
//! [`Search::next`], until `next` says the candidate is free.

use vstd::prelude::*;

use crate::error::Error;
use crate::ext::{spec_split, split};
use crate::style::{
    NumberStyle, all_digits, close_char, detect_version, last_index_of, digits_value, digits_width,
    law_detect_rendered, law_render_detected, open_char, render, spec_detect_version, spec_render,
};

verus! {

/// What `std::path::Path::file_name` gives for a path, as text, on the
/// platform the crate is built for.
pub uninterp spec fn path_file_name(path: Seq<char>) -> Option<Seq<char>>;

/// What `std::path::Path::parent` gives for a path, as text, on the platform
/// the crate is built for.
pub uninterp spec fn path_parent(path: Seq<char>) -> Option<Seq<char>>;

/// What `std::path::Path::join` gives for a directory and a name, as text, on
/// the platform the crate is built for.
pub uninterp spec fn path_join(dir: Seq<char>, name: Seq<char>) -> Seq<char>;

/// A character that separates path components on some platform.
pub open spec fn is_separator(c: char) -> bool {
    c == '/' || c == '\\'
}

/// Text with no backslash and no colon, so that no platform reads a drive
/// prefix or a backslash separator in it.
pub open spec fn portable(s: Seq<char>) -> bool {
    forall|i: int| 0 <= i < s.len() ==> #[trigger] s[i] != '\\' && s[i] != ':'
}

/// Text that starts with two slashes (a network prefix on some platforms).
pub open spec fn starts_with_two_slashes(s: Seq<char>) -> bool {
    s.len() >= 2 && s[0] == '/' && s[1] == '/'
}

/// A single plain path component: non-empty, neither `.` nor `..`, with no
/// slash, backslash or colon in it.
pub open spec fn plain_name(n: Seq<char>) -> bool {
    &&& n.len() > 0
    &&& n != seq!['.']
    &&& n != seq!['.', '.']
    &&& portable(n)
    &&& forall|i: int| 0 <= i < n.len() ==> #[trigger] n[i] != '/'
}

/// A directory text that comes back whole as the parent of a path below
/// it: non-empty, portable, not starting with two slashes, and not ending
/// with a slash or with a `.` component.
pub open spec fn plain_dir(d: Seq<char>) -> bool {
    &&& d.len() > 0
    &&& portable(d)
    &&& !starts_with_two_slashes(d)
    &&& d.last() != '/'
    &&& d != seq!['.']
    &&& !(d.len() >= 2 && d[d.len() - 2] == '/' && d.last() == '.')
}

/// `p` without one trailing slash.
pub open spec fn without_trailing_slash(p: Seq<char>) -> Seq<char> {
    if p.len() > 0 && p.last() == '/' {
        p.drop_last()
    } else {
        p
    }
}

/// The text after the last slash of `p` (all of `p` when it has none).
pub open spec fn after_last_slash(p: Seq<char>) -> Seq<char> {
    match last_index_of(p, '/') {
        Some(i) => p.subrange(i + 1, p.len() as int),
        None => p,
    }
}

/// The text before the last slash of `p` (empty when it has none).
pub open spec fn before_last_slash(p: Seq<char>) -> Seq<char> {
    match last_index_of(p, '/') {
        Some(i) => p.subrange(0, i),
        None => Seq::<char>::empty(),
    }
}

/// The final component of `path`, as `std::path::Path::file_name` finds it
/// (`None` for a root, a prefix, or a path ending in `..`).
///
/// Claims that the text returned is the named result for `path` (a path made
/// from a `&str` has a file name that is valid UTF-8, so the lossless
/// conversion keeps it whole), and, as `file_name`'s documentation shows
/// (`"tmp/foo.txt"` and `"/foo/bar/"` give `foo.txt` and `bar`), that for a
/// portable path that does not start with two slashes and whose text after
/// the last slash (one trailing slash set aside) is a plain component, the
/// file name is that text. Nothing is claimed of other paths.
#[verifier::external_body]
fn file_name_of(path: &str) -> (r: Option<String>)
    ensures
        match r {
            Some(name) => path_file_name(path@) == Some(name@),
            None => path_file_name(path@) is None,
        },
        ({
            let q = without_trailing_slash(path@);
            portable(q) && !starts_with_two_slashes(q) && plain_name(after_last_slash(q))
        }) ==> (r is Some && r->0@ == after_last_slash(without_trailing_slash(path@))),
{
    match std::path::Path::new(path).file_name() {
        Some(name) => Some(name.to_string_lossy().into_owned()),
        None => None,
    }
}

/// The path without its final component, as `std::path::Path::parent` finds
/// it (`None` for a root or a prefix).
///
/// Claims that the text returned is the named result for `path`, and, as
/// `parent`'s documentation shows (`"foo/bar"` gives `foo`, `"foo"` gives
/// the empty path), that for a path `d/n` whose last component `n` is plain
/// and whose directory text `d` is a plain directory, the parent is `d`, and
/// for a path that is one plain component, the parent is empty. Nothing is
/// claimed of other paths.
#[verifier::external_body]
fn parent_of(path: &str) -> (r: Option<String>)
    ensures
        match r {
            Some(dir) => path_parent(path@) == Some(dir@),
            None => path_parent(path@) is None,
        },
        plain_name(after_last_slash(path@)) && (last_index_of(path@, '/') is None || plain_dir(
            before_last_slash(path@),
        )) ==> (r is Some && r->0@ == before_last_slash(path@)),
{
    match std::path::Path::new(path).parent() {
        Some(dir) => Some(dir.to_string_lossy().into_owned()),
        None => None,
    }
}

/// A directory and a name that joining puts together by text alone: both
/// portable, the name non-empty and relative.
pub open spec fn joinable(dir: Seq<char>, name: Seq<char>) -> bool {
    &&& portable(dir)
    &&& portable(name)
    &&& name.len() > 0
    &&& name[0] != '/'
}

/// `r` is `name` placed under `dir`: the name alone when the directory is
/// empty, directory and name when the directory ends in a slash, and
/// otherwise directory, one separator, name.
pub open spec fn joined(dir: Seq<char>, name: Seq<char>, r: Seq<char>) -> bool {
    &&& dir.len() == 0 ==> r == name
    &&& dir.len() > 0 && dir.last() == '/' ==> r == dir + name
    &&& dir.len() > 0 && dir.last() != '/' ==> {
        &&& r.len() == dir.len() + 1 + name.len()
        &&& r.subrange(0, dir.len() as int) == dir
        &&& is_separator(r[dir.len() as int])
        &&& r.subrange(dir.len() as int + 1, r.len() as int) == name
    }
}

/// `p` is a plain component, or a plain directory, a slash and a plain
/// component.
pub open spec fn plain_path(p: Seq<char>) -> bool {
    &&& plain_name(after_last_slash(p))
    &&& last_index_of(p, '/') is None || plain_dir(before_last_slash(p))
}

/// A plain path is its directory text, a slash and its last component (or
/// that component alone); it is portable, does not start with two slashes
/// and does not end with a slash.
pub proof fn lemma_plain_path(p: Seq<char>)
    ensures
        plain_path(p) ==> {
            &&& without_trailing_slash(p) == p
            &&& portable(p)
            &&& !starts_with_two_slashes(p)
            &&& last_index_of(p, '/') matches Some(i) ==> p == before_last_slash(p) + seq!['/']
                + after_last_slash(p)
        },
{
    crate::style::lemma_last_index_of(p, '/');
    if plain_path(p) {
        let n = after_last_slash(p);
        match last_index_of(p, '/') {
            Some(i) => {
                let d = before_last_slash(p);
                assert(p =~= d + seq!['/'] + n);
                assert(p.last() == n.last());
                assert(n[n.len() - 1] != '/');
                assert forall|k: int| 0 <= k < p.len() implies #[trigger] p[k] != '\\' && p[k]
                    != ':' by {
                    if k < i {
                        assert(p[k] == d[k]);
                    } else if k > i {
                        assert(p[k] == n[k - i - 1]);
                    }
                }
                if d.len() >= 2 {
                    assert(p[0] == d[0] && p[1] == d[1]);
                } else {
                    assert(d[0] != '/');
                }
            },
            None => {
                assert(p.last() != '/');
            },
        }
    }
}

/// `name` joined onto `dir`, as `std::path::Path::join` builds it.
///
/// Claims that the text returned is the named result for the two arguments,
/// and, as `join` and `PathBuf::push` document it, for a portable directory
/// and a portable relative name: the name alone when the directory is empty,
/// the directory and the name when the directory ends in a slash, and
/// otherwise the directory, one separator, and the name. And that the
/// joined path has the directory as its parent and the name as its file
/// name, when the directory is a plain directory and the name a plain
/// component. Nothing is claimed of other arguments.
#[verifier::external_body]
fn join_of(dir: &str, name: &str) -> (r: String)
    ensures
        r@ == path_join(dir@, name@),
        joinable(dir@, name@) ==> joined(dir@, name@, r@),
        plain_dir(dir@) && plain_name(name@) ==> path_parent(r@) == Some(dir@) && path_file_name(
            r@,
        ) == Some(name@),
{
    std::path::Path::new(dir).join(name).to_string_lossy().into_owned()
}

/// The state of a search for a free sibling name: the candidate is
/// `core + <open><number><close> + ext` in the directory `parent`.
pub struct Search {
    /// The directory the candidates are placed in.
    pub parent: String,
    /// The name in front of the numeric suffix.
    pub core: String,
    /// The bracket style of the suffix.
    pub style: NumberStyle,
    /// The zero-padding width of the number, if any.
    pub pad: Option<usize>,
    /// The extension after the suffix, with its leading dot.
    pub ext: String,
    /// The number of the current candidate.
    pub number: u64,
}

/// The file name of the current candidate of a search.
pub open spec fn candidate_name_of(s: &Search) -> Seq<char> {
    s.core@ + spec_render(s.style, s.number, s.pad) + s.ext@
}

/// `s` is the search that starts from the existing file `name` in `parent`:
/// an existing number keeps its style and padding and the search continues
/// from it; otherwise a round-bracket suffix starts at 1.
pub open spec fn starts_search(s: &Search, parent: Seq<char>, name: Seq<char>) -> bool {
    let (base, ext) = spec_split(name);
    &&& s.parent@ == parent
    &&& s.ext@ == ext
    &&& match spec_detect_version(base) {
        Some((core, version)) => {
            &&& s.core@ == core
            &&& s.style == version.style
            &&& s.pad == version.pad
            &&& s.number == version.number
        },
        None => {
            &&& s.core@ == base
            &&& s.style == NumberStyle::Round
            &&& s.pad is None
            &&& s.number == 1
        },
    }
}

/// `next` moved `after` on from `before`: the same search with the next number.
pub open spec fn advanced(before: &Search, after: &Search) -> bool {
    &&& after.parent == before.parent
    &&& after.core == before.core
    &&& after.style == before.style
    &&& after.pad == before.pad
    &&& after.ext == before.ext
    &&& after.number == before.number + 1
}

impl Search {
    /// The search for a name that is not valid UTF-8: a plain round-bracket
    /// suffix appended to the whole name, starting at 1.
    pub fn plain(parent: String, name: String) -> (s: Search)
        ensures
            s.parent == parent,
            s.core == name,
            s.style == NumberStyle::Round,
            s.pad is None,
            s.ext@ == Seq::<char>::empty(),
            s.number == 1,
    {
        Search {
            parent,
            core: name,
            style: NumberStyle::DEFAULT,
            pad: None,
            ext: String::new(),
            number: 1,
        }
    }

    /// The file name of the current candidate.
    pub fn candidate_name(&self) -> (r: String)
        ensures
            r@ == candidate_name_of(self),
    {
        let suffix = render(self.style, self.number, self.pad);
        let r = self.core.clone().concat(suffix.as_str()).concat(self.ext.as_str());
        proof {
            assert(r@ =~= candidate_name_of(self));
        }
        r
    }

    /// The path of the current candidate: its file name joined onto the
    /// directory.
    pub fn candidate(&self) -> (r: String)
        ensures
            r@ == path_join(self.parent@, candidate_name_of(self)),
            joinable(self.parent@, candidate_name_of(self)) ==> joined(
                self.parent@,
                candidate_name_of(self),
                r@,
            ),
            plain_dir(self.parent@) && plain_name(candidate_name_of(self)) ==> path_parent(r@)
                == Some(self.parent@) && path_file_name(r@) == Some(candidate_name_of(self)),
    {
        let name = self.candidate_name();
        join_of(self.parent.as_str(), name.as_str())
    }

    /// Take the answer to "does the current candidate exist?", as the file
    /// system gave it. `Ok(true)`: it does not, and it is the free path; the
    /// search stays where it is. `Ok(false)`: it does, and the search has
    /// moved on to the next number. `Err(Overflow)`: it does, and the number
    /// cannot grow any further. `Err(Io(..))`: the question could not be
    /// answered; the search stays where it is.
    pub fn next(&mut self, candidate_exists: std::io::Result<bool>) -> (r: Result<bool, Error>)
        ensures
            candidate_exists matches Err(e) ==> (r == Err::<bool, Error>(Error::Io(e))
                && *final(self) == *old(self)),
            candidate_exists matches Ok(false) ==> (r matches Ok(true) && *final(self) == *old(
                self,
            )),
            candidate_exists matches Ok(true) && old(self).number < u64::MAX ==> (r matches Ok(
                false,
            ) && advanced(old(self), final(self))),
            candidate_exists matches Ok(true) && old(self).number == u64::MAX ==> (r matches Err(
                Error::Overflow,
            ) && *final(self) == *old(self)),
    {
        let taken = match candidate_exists {
            Ok(taken) => taken,
            Err(e) => return Err(Error::Io(e)),
        };
        if !taken {
            return Ok(true);
        }
        match self.number.checked_add(1) {
            Some(n) => {
                self.number = n;
                Ok(false)
            },
            None => Err(Error::Overflow),
        }
    }
}

/// The outcome of the first step of a search.
pub enum Resolution {
    /// The path does not exist: it is free as it is.
    Free(String),
    /// The path exists: search for a free sibling.
    Search(Search),
}

/// The directory that a path's siblings are placed in: its parent, or `.`.
pub open spec fn sibling_dir(path: Seq<char>) -> Seq<char> {
    match path_parent(path) {
        Some(dir) => dir,
        None => "."@,
    }
}

/// What resolving `path` gives, given the file system's answer to whether
/// it exists: the I/O error when there is no answer, the path itself when it
/// is free, `MissingFileName` when it has no file name, and otherwise the
/// search that starts from its file name among its siblings.
pub open spec fn resolves(
    path: Seq<char>,
    path_exists: std::io::Result<bool>,
    r: Result<Resolution, Error>,
) -> bool {
    match path_exists {
        Err(e) => r == Err::<Resolution, Error>(Error::Io(e)),
        Ok(false) => r matches Ok(Resolution::Free(p)) && p@ == path,
        Ok(true) => match path_file_name(path) {
            None => r matches Err(Error::MissingFileName),
            Some(name) => r matches Ok(Resolution::Search(s)) && starts_search(
                &s,
                sibling_dir(path),
                name,
            ),
        },
    }
}

/// Resolve `path` to the nearest free (non-colliding) sibling name; the
/// caller reports whether `path` exists, as the file system answered.
///
/// If `path` does not exist it is returned unchanged.
pub fn resolve(path: &str, path_exists: std::io::Result<bool>) -> (r: Result<Resolution, Error>)
    ensures
        resolves(path@, path_exists, r),
        path_exists matches Ok(true) && plain_path(path@) ==> {
            &&& path_file_name(path@) == Some(after_last_slash(path@))
            &&& path_parent(path@) == Some(before_last_slash(path@))
            &&& r matches Ok(Resolution::Search(s)) && starts_search(
                &s,
                before_last_slash(path@),
                after_last_slash(path@),
            )
        },
{
    proof {
        lemma_plain_path(path@);
    }
    let exists = match path_exists {
        Ok(exists) => exists,
        Err(e) => return Err(Error::Io(e)),
    };
    if !exists {
        return Ok(Resolution::Free(path.to_owned()));
    }
    let file_name = match file_name_of(path) {
        Some(name) => name,
        // e.g. a filesystem root like `/` has nothing to number.
        None => return Err(Error::MissingFileName),
    };
    let parent = match parent_of(path) {
        Some(dir) => dir,
        None => String::from_str("."),
    };
    Ok(Resolution::Search(resolve_utf8(parent, file_name.as_str())))
}

/// The search for a free sibling of the existing file `name` in `parent`.
pub fn resolve_utf8(parent: String, name: &str) -> (s: Search)
    ensures
        starts_search(&s, parent@, name@),
{
    let (base, ext) = split(name);
    // If the existing name already carries a number, keep its bracket style
    // (and zero-padding) and continue from it; otherwise start a fresh
    // round-bracket suffix at 1.
    match detect_version(base) {
        Some((core, version)) => Search {
            parent,
            core,
            style: version.style,
            pad: version.pad,
            ext: ext.to_owned(),
            number: version.number,
        },
        None => Search {
            parent,
            core: base.to_owned(),
            style: NumberStyle::DEFAULT,
            pad: None,
            ext: ext.to_owned(),
            number: 1,
        },
    }
}

/// The name a search proposes is its core, the open delimiter of its style,
/// the decimal digits of its number (zero-padded only up to the padding
/// width: a number with at least that many digits shows no leading zero),
/// the close delimiter, and its extension.
pub proof fn law_candidate_name(s: Search)
    ensures
        ({
            let name = candidate_name_of(&s);
            let c = s.core@.len() as int;
            let w = digits_width(s.number, s.pad) as int;
            &&& name.len() == c + w + 2 + s.ext@.len()
            &&& name.subrange(0, c) == s.core@
            &&& name[c] == open_char(s.style)
            &&& all_digits(name.subrange(c + 1, c + 1 + w))
            &&& digits_value(name.subrange(c + 1, c + 1 + w)) == s.number
            &&& name[c + 1 + w] == close_char(s.style)
            &&& name.subrange(c + 2 + w, name.len() as int) == s.ext@
        }),
{
    crate::style::lemma_render_digits(s.number, s.pad);
    let name = candidate_name_of(&s);
    let c = s.core@.len() as int;
    let w = digits_width(s.number, s.pad) as int;
    let digits = crate::style::padded(crate::style::decimal(s.number as nat), s.pad);
    assert(name =~= s.core@ + seq![open_char(s.style)] + digits + seq![close_char(s.style)]
        + s.ext@);
    assert(name.subrange(0, c) =~= s.core@);
    assert(name.subrange(c + 1, c + 1 + w) =~= digits);
    assert(name.subrange(c + 2 + w, name.len() as int) =~= s.ext@);
}

/// The first candidate of a search: for an existing name that already
/// carries a number it is that name itself (so the search moves on past it),
/// and for any other name it is the name with `(1)` put before its extension.
pub proof fn law_first_candidate(s: Search, parent: Seq<char>, name: Seq<char>)
    requires
        name.len() <= usize::MAX,
        starts_search(&s, parent, name),
    ensures
        spec_detect_version(spec_split(name).0) is Some ==> candidate_name_of(&s) == name,
        spec_detect_version(spec_split(name).0) is None ==> candidate_name_of(&s) == spec_split(
            name,
        ).0 + seq!['(', '1', ')'] + spec_split(name).1,
{
    let (base, ext) = spec_split(name);
    crate::ext::lemma_split_shape(name);
    if spec_detect_version(base) is Some {
        law_render_detected(base);
    } else {
        assert(crate::style::decimal(1) =~= seq!['1']);
        assert(spec_render(NumberStyle::Round, 1, None) =~= seq!['(', '1', ')']);
    }
}

/// A search never proposes the same name twice: two states that differ
/// only in their number have different candidate names.
pub proof fn law_candidates_distinct(a: Search, b: Search)
    requires
        a.core == b.core,
        a.style == b.style,
        a.pad == b.pad,
        a.ext == b.ext,
        a.number != b.number,
    ensures
        candidate_name_of(&a) != candidate_name_of(&b),
{
    let ra = spec_render(a.style, a.number, a.pad);
    let rb = spec_render(b.style, b.number, b.pad);
    let empty = Seq::<char>::empty();
    law_detect_rendered(empty, a.style, a.number, a.pad);
    law_detect_rendered(empty, b.style, b.number, b.pad);
    assert(empty + ra =~= ra);
    assert(empty + rb =~= rb);
    if candidate_name_of(&a) == candidate_name_of(&b) {
        let x = candidate_name_of(&a);
        let c = a.core@.len() as int;
        assert(x == a.core@ + ra + a.ext@);
        assert(candidate_name_of(&b) == a.core@ + rb + a.ext@);
        assert(x.len() == a.core@.len() + ra.len() + a.ext@.len());
        assert(ra.len() == rb.len());
        assert(x.subrange(c, c + ra.len()) =~= ra);
        assert(candidate_name_of(&b).subrange(c, c + rb.len()) =~= rb);
        assert(ra == rb);
    }
}

/// The file name that a search proposes when its number is `m`.
pub open spec fn name_at(s: &Search, m: u64) -> Seq<char> {
    s.core@ + spec_render(s.style, m, s.pad) + s.ext@
}

/// `trace` is the sequence of states a search passes through when each
/// candidate name is answered by `taken`: every state but the last proposed
/// a taken name, and [`Search::next`] moved it on to the following state.
pub open spec fn is_run(trace: Seq<Search>, taken: spec_fn(Seq<char>) -> bool) -> bool {
    &&& trace.len() > 0
    &&& forall|i: int|
        0 <= i < trace.len() - 1 ==> #[trigger] taken(candidate_name_of(&trace[i])) && advanced(
            &trace[i],
            &trace[i + 1],
        )
}

/// A run of the search probes the numbers from its start one by one, all in
/// one directory: the `i`-th state proposes the name with number
/// `start + i`, every name before the last was taken, and a run holds at
/// most `u64::MAX - start + 1` states, so it ends, with a free name or with
/// `Overflow` at `u64::MAX`. When the last name is free, its number is the
/// least free one at or above the start; when the last number is
/// `u64::MAX` and its name is taken, every number from the start up was.
pub proof fn law_run(trace: Seq<Search>, taken: spec_fn(Seq<char>) -> bool)
    requires
        is_run(trace, taken),
    ensures
        trace.len() <= u64::MAX - trace[0].number + 1,
        forall|i: int|
            #![trigger trace[i]]
            0 <= i < trace.len() ==> {
                &&& trace[i].number == trace[0].number + i
                &&& trace[i].parent == trace[0].parent
                &&& trace[i].core == trace[0].core
                &&& trace[i].style == trace[0].style
                &&& trace[i].pad == trace[0].pad
                &&& trace[i].ext == trace[0].ext
                &&& candidate_name_of(&trace[i]) == name_at(&trace[0], trace[i].number)
            },
        forall|m: u64|
            trace[0].number <= m < trace.last().number ==> #[trigger] taken(
                name_at(&trace[0], m),
            ),
        !taken(candidate_name_of(&trace.last())) ==> !taken(
            name_at(&trace[0], trace.last().number),
        ),
        trace.last().number == u64::MAX && taken(candidate_name_of(&trace.last())) ==> forall|
            m: u64,
        |
            trace[0].number <= m ==> #[trigger] taken(name_at(&trace[0], m)),
    decreases trace.len(),
{
    let last = trace.len() - 1;
    if trace.len() > 1 {
        let front = trace.drop_last();
        assert forall|i: int| 0 <= i < front.len() - 1 implies #[trigger] taken(
            candidate_name_of(&front[i]),
        ) && advanced(&front[i], &front[i + 1]) by {
            assert(front[i] == trace[i]);
            assert(front[i + 1] == trace[i + 1]);
            assert(taken(candidate_name_of(&trace[i])));
        }
        law_run(front, taken);
        assert(taken(candidate_name_of(&trace[last - 1])) && advanced(
            &trace[last - 1],
            &trace[last],
        ));
        assert(front.last() == trace[last - 1]);
        assert forall|i: int| #![trigger trace[i]] 0 <= i < trace.len() implies {
            &&& trace[i].number == trace[0].number + i
            &&& trace[i].parent == trace[0].parent
            &&& trace[i].core == trace[0].core
            &&& trace[i].style == trace[0].style
            &&& trace[i].pad == trace[0].pad
            &&& trace[i].ext == trace[0].ext
            &&& candidate_name_of(&trace[i]) == name_at(&trace[0], trace[i].number)
        } by {
            if i < last {
                assert(trace[i] == front[i]);
                assert(front[i].number == front[0].number + i);
            } else {
                assert(trace[i - 1] == front[i - 1]);
                assert(front[i - 1].number == front[0].number + i - 1);
            }
        }
        assert forall|m: u64| trace[0].number <= m < trace.last().number implies #[trigger] taken(
            name_at(&trace[0], m),
        ) by {
            if m < front.last().number {
                assert(taken(name_at(&front[0], m)));
            } else {
                assert(m == trace[last - 1].number);
                assert(candidate_name_of(&trace[last - 1]) == name_at(&trace[0], m));
            }
        }
    } else {
        assert(candidate_name_of(&trace[0]) == name_at(&trace[0], trace[0].number));
    }
}

/// The free name that a run finds for an existing file is a new name: it is
/// never the file's own name, and it stays in the file's directory.
pub proof fn law_run_finds_new_name(
    parent: Seq<char>,
    name: Seq<char>,
    trace: Seq<Search>,
    taken: spec_fn(Seq<char>) -> bool,
)
    requires
        name.len() <= usize::MAX,
        is_run(trace, taken),
        starts_search(&trace[0], parent, name),
        taken(name),
        !taken(candidate_name_of(&trace.last())),
    ensures
        candidate_name_of(&trace.last()) != name,
        trace.last().parent@ == parent,
{
    law_run(trace, taken);
    law_first_candidate(trace[0], parent, name);
    let (base, ext) = spec_split(name);
    crate::ext::lemma_split_shape(name);
    let found = trace.last();
    if spec_detect_version(base) is Some {
        if found.number != trace[0].number {
            law_candidates_distinct(trace[0], found);
        }
    } else {
        crate::style::lemma_render_len(found.style, found.number, found.pad);
        assert(candidate_name_of(&found).len() > name.len());
    }
}

/// Every name a search proposes for a plain file name is a plain name too:
/// it is made of a prefix and a suffix of the file name, bracket characters
/// and digits, so it holds no separator and is never `.` or `..`.
pub proof fn law_candidates_plain(s: Search, parent: Seq<char>, name: Seq<char>, t: Search)
    requires
        plain_name(name),
        starts_search(&s, parent, name),
        t.core == s.core,
        t.style == s.style,
        t.pad == s.pad,
        t.ext == s.ext,
    ensures
        plain_name(candidate_name_of(&t)),
{
    let (base, ext) = spec_split(name);
    crate::ext::lemma_split_shape(name);
    law_candidate_name(t);
    crate::style::lemma_delimiters(t.style);
    let cand = candidate_name_of(&t);
    let c = t.core@.len() as int;
    let w = digits_width(t.number, t.pad) as int;
    // The core is a prefix of the name, the extension a suffix of it.
    assert(name =~= base + ext);
    assert(c <= base.len() && forall|k: int| 0 <= k < c ==> t.core@[k] == base[k]) by {
        match spec_detect_version(base) {
            Some((core, version)) => {
                let prefix = base.drop_last();
                let idx = last_index_of(prefix, open_char(version.style))->0;
                crate::style::lemma_last_index_of(prefix, open_char(version.style));
                assert(core == prefix.subrange(0, idx));
            },
            None => {},
        }
    }
    let digits = cand.subrange(c + 1, c + 1 + w);
    assert forall|k: int| 0 <= k < cand.len() implies #[trigger] cand[k] != '\\' && cand[k]
        != ':' && cand[k] != '/' by {
        if k < c {
            assert(cand[k] == cand.subrange(0, c)[k]);
            assert(cand[k] == base[k]);
            assert(base[k] == name[k]);
            assert(name[k] != '/');
            assert(name[k] != '\\' && name[k] != ':');
        } else if k == c {
        } else if k < c + 1 + w {
            assert(cand[k] == digits[k - c - 1]);
            assert(crate::style::is_digit(digits[k - c - 1]));
        } else if k == c + 1 + w {
        } else {
            let j = k - c - 2 - w;
            assert(cand[k] == cand.subrange(c + 2 + w, cand.len() as int)[j]);
            assert(cand[k] == ext[j]);
            assert(ext[j] == name[base.len() + j]);
            assert(name[base.len() + j] != '/');
            assert(name[base.len() + j] != '\\' && name[base.len() + j] != ':');
        }
    }
    assert(cand.len() >= 3);
    assert(cand != seq!['.']);
    assert(cand != seq!['.', '.']);
}

/// For an existing file whose path is a plain directory, a slash and a
/// plain name, the free path that a run of the search finds is a different
/// sibling: the same parent directory, and a file name other than the
/// file's own. The parent and file name of the path and of the found path
/// are those that [`resolve`] and [`Search::candidate`] state.
pub proof fn law_found_path_is_new_sibling(
    path: Seq<char>,
    trace: Seq<Search>,
    taken: spec_fn(Seq<char>) -> bool,
    found: Seq<char>,
)
    requires
        path.len() <= usize::MAX,
        plain_path(path),
        last_index_of(path, '/') is Some,
        path_file_name(path) == Some(after_last_slash(path)),
        path_parent(path) == Some(before_last_slash(path)),
        is_run(trace, taken),
        starts_search(&trace[0], before_last_slash(path), after_last_slash(path)),
        taken(after_last_slash(path)),
        !taken(candidate_name_of(&trace.last())),
        plain_dir(trace.last().parent@) && plain_name(candidate_name_of(&trace.last()))
            ==> path_parent(found) == Some(trace.last().parent@) && path_file_name(found) == Some(
            candidate_name_of(&trace.last()),
        ),
    ensures
        path_parent(found) == path_parent(path),
        path_file_name(found) is Some,
        path_file_name(found) != path_file_name(path),
{
    law_run(trace, taken);
    crate::style::lemma_last_index_of(path, '/');
    assert(after_last_slash(path).len() <= path.len());
    law_run_finds_new_name(before_last_slash(path), after_last_slash(path), trace, taken);
    law_candidates_plain(trace[0], before_last_slash(path), after_last_slash(path), trace.last());
}

} // verus!
