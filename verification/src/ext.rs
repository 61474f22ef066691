//! Splitting a file name into its base and its extension.
//!
//! The number is inserted at the first `.`, which keeps the whole dot-suffix
//! together (`a.tar.xz` splits into `a` and `.tar.xz`). A leading dot that
//! opens a dot-file (`.gitignore`, `.a.b.c`) belongs to the name.

use vstd::prelude::*;

verus! {

/// Where the search for the separating dot starts: after a leading dot.
pub open spec fn split_start(name: Seq<char>) -> int {
    if name.len() > 0 && name[0] == '.' { 1 } else { 0 }
}

/// The position of the first `.` at or after `from`, if there is one.
pub open spec fn first_dot_from(name: Seq<char>, from: int) -> Option<int>
    decreases name.len() - from,
{
    if from < 0 || from >= name.len() {
        None
    } else if name[from] == '.' {
        Some(from)
    } else {
        first_dot_from(name, from + 1)
    }
}

/// The index at which `name` is split into base and extension.
pub open spec fn split_index(name: Seq<char>) -> int {
    match first_dot_from(name, split_start(name)) {
        Some(i) => i,
        None => name.len() as int,
    }
}

/// `(base, ext)` of a name, as characters.
pub open spec fn spec_split(name: Seq<char>) -> (Seq<char>, Seq<char>) {
    let i = split_index(name);
    (name.subrange(0, i), name.subrange(i, name.len() as int))
}

proof fn lemma_first_dot_from(name: Seq<char>, from: int)
    requires
        0 <= from <= name.len(),
    ensures
        match first_dot_from(name, from) {
            Some(i) => from <= i < name.len() && name[i] == '.' && forall|j: int|
                from <= j < i ==> name[j] != '.',
            None => forall|j: int| from <= j < name.len() ==> name[j] != '.',
        },
    decreases name.len() - from,
{
    if from < name.len() && name[from] != '.' {
        lemma_first_dot_from(name, from + 1);
    }
}

/// The split of a name, characterised directly: base and extension make
/// up the name; the extension is empty or starts with a dot that is not a
/// leading one; and the base holds no dot but a leading one. So the
/// extension starts at the first dot of the name other than a leading one.
pub proof fn lemma_split_shape(name: Seq<char>)
    ensures
        ({
            let (base, ext) = spec_split(name);
            let lead: int = if name.len() > 0 && name[0] == '.' { 1 } else { 0 };
            &&& base + ext == name
            &&& ext.len() == 0 || ext[0] == '.'
            &&& ext.len() > 0 ==> base.len() >= lead
            &&& forall|j: int| lead <= j < base.len() ==> base[j] != '.'
        }),
{
    lemma_first_dot_from(name, split_start(name));
    let (base, ext) = spec_split(name);
    assert(base + ext =~= name);
}

/// Split `name` into `(base, ext)`. `ext` keeps its leading dot and is empty
/// when there is no dot to split on.
///
/// * `a.b.c`        → (`a`, `.b.c`)
/// * `.a.b.c`       → (`.a`, `.b.c`)   — a leading dot is skipped
/// * `.gitignore`   → (`.gitignore`, ``)
/// * `Makefile`     → (`Makefile`, ``)
pub fn split(name: &str) -> (r: (&str, &str))
    ensures
        r.0@ == spec_split(name@).0,
        r.1@ == spec_split(name@).1,
        r.0@ + r.1@ == name@,
        r.1@.len() == 0 || r.1@[0] == '.',
        r.1@.len() > 0 ==> r.0@.len() >= (if name@.len() > 0 && name@[0] == '.' {
            1int
        } else {
            0int
        }),
        forall|j: int|
            (if name@.len() > 0 && name@[0] == '.' { 1int } else { 0int }) <= j < r.0@.len()
                ==> r.0@[j] != '.',
{
    proof {
        lemma_split_shape(name@);
    }
    let len = name.unicode_len();
    let start: usize = if len > 0 && name.get_char(0) == '.' { 1 } else { 0 };
    let mut i: usize = start;
    while i < len
        invariant
            len == name@.len(),
            start == split_start(name@),
            start <= i <= len,
            first_dot_from(name@, start as int) == first_dot_from(name@, i as int),
        decreases len - i,
    {
        if name.get_char(i) == '.' {
            let base = name.substring_char(0, i);
            let ext = name.substring_char(i, len);
            proof {
                lemma_split_shape(name@);
                assert(first_dot_from(name@, i as int) == Some(i as int));
                assert(base@ == spec_split(name@).0);
                assert(ext@ == spec_split(name@).1);
            }
            return (base, ext);
        }
        i = i + 1;
    }
    proof {
        reveal_strlit("");
        assert(name@.subrange(0, len as int) =~= name@);
    }
    (name, "")
}

} // verus!
