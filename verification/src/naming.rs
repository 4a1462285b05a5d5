//! Names of the files that the front end reads and writes: which directory
//! entries are images, in what order they are offered, and what a locked or
//! unlocked output file is called.

use crate::keytext::push_char;
use vstd::prelude::*;
use vstd::string::*;

verus! {

/// A single file name as a directory lists it: not empty, not `.` or `..`,
/// and without `/`, `\` or `:`, so that no platform reads a directory or a
/// drive prefix in it.
pub open spec fn is_bare_file_name(name: Seq<char>) -> bool {
    &&& name.len() > 0
    &&& !(name.len() == 1 && name[0] == '.')
    &&& !(name.len() == 2 && name[0] == '.' && name[1] == '.')
    &&& forall|i: int|
        0 <= i < name.len() ==> #[trigger] name[i] != '/' && name[i] != '\\' && name[i] != ':'
}

/// Index of the last `.` in `name`, or -1 where there is none.
pub open spec fn last_dot(name: Seq<char>) -> int
    decreases name.len(),
{
    if name.len() == 0 {
        -1
    } else if name.last() == '.' {
        name.len() - 1
    } else {
        last_dot(name.drop_last())
    }
}

/// The stem of a file name, as `Path::file_stem` defines it: the part before
/// the last `.`, or the whole name where it has no `.` or only a leading one.
pub open spec fn file_stem_of(name: Seq<char>) -> Seq<char> {
    if last_dot(name) <= 0 {
        name
    } else {
        name.take(last_dot(name))
    }
}

/// The extension of a file name, as `Path::extension` defines it: the part
/// after the last `.`, where that `.` is not the first character.
pub open spec fn extension_of(name: Seq<char>) -> Option<Seq<char>> {
    if last_dot(name) <= 0 {
        None
    } else {
        Some(name.skip(last_dot(name) + 1))
    }
}

/// A path that every platform's `Path` splits the same way: no `\\` (a
/// separator on Windows only), no `:` (a drive prefix on Windows), and no
/// leading `//` (a network share prefix on Windows). Its components are
/// separated by `/`.
pub open spec fn is_portable_path(path: Seq<char>) -> bool {
    &&& forall|i: int| 0 <= i < path.len() ==> #[trigger] path[i] != '\\' && path[i] != ':'
    &&& !(path.len() >= 2 && path[0] == '/' && path[1] == '/')
}

/// The characters after the last `/` of `path` (all of it where it has none).
pub open spec fn trailing_segment(path: Seq<char>) -> Seq<char>
    decreases path.len(),
{
    if path.len() == 0 || path.last() == '/' {
        Seq::empty()
    } else {
        trailing_segment(path.drop_last()).push(path.last())
    }
}

/// The file name of a path, as `Path::file_name` defines it: its last
/// component, skipping trailing `/` and `.` components; `None` where that
/// component is `..` or there is none.
pub open spec fn path_file_name(path: Seq<char>) -> Option<Seq<char>>
    decreases path.len(),
{
    let seg = trailing_segment(path);
    if path.len() == 0 {
        None
    } else if seg.len() == 0 {
        path_file_name(path.drop_last())
    } else if seg =~= seq!['.'] {
        if seg.len() == path.len() {
            None
        } else {
            path_file_name(path.take(path.len() - 1))
        }
    } else if seg =~= seq!['.', '.'] {
        None
    } else {
        Some(seg)
    }
}

/// Calls `Path::new(path).file_stem()` of std and turns the stem into a `String`.
///
/// Trusted, from std's documentation of `file_name` and `file_stem`: for a
/// portable path the stem is `file_stem_of` its file name, and there is none
/// where it has no file name. For other paths (with `\\`, `:` or a leading
/// `//`) the result depends on the platform's path syntax and is not stated.
#[verifier::external_body]
pub(crate) fn path_file_stem(path: &str) -> (res: Option<String>)
    ensures
        is_portable_path(path@) ==> match res {
            Some(stem) => path_file_name(path@) matches Some(name) && stem@ == file_stem_of(name),
            None => path_file_name(path@) is None,
        },
{
    std::path::Path::new(path).file_stem().map(|s| s.to_string_lossy().into_owned())
}

/// The extension that `Path::extension` gives a path: that of its file name.
pub open spec fn path_extension_of(path: Seq<char>) -> Option<Seq<char>> {
    match path_file_name(path) {
        Some(name) => extension_of(name),
        None => None,
    }
}

/// Calls `Path::new(path).extension()` of std and turns the extension into a
/// `String`.
///
/// Trusted, from std's documentation of `file_name` and `extension`: for a
/// portable path the extension is `path_extension_of` it. For other paths the
/// result depends on the platform's path syntax and is not stated.
#[verifier::external_body]
pub(crate) fn path_extension(path: &str) -> (res: Option<String>)
    ensures
        is_portable_path(path@) ==> match res {
            Some(ext) => path_extension_of(path@) == Some(ext@),
            None => path_extension_of(path@) is None,
        },
{
    std::path::Path::new(path).extension().map(|s| s.to_string_lossy().into_owned())
}

/// The status suffix of a locked file's stem.
pub open spec fn locked_suffix() -> Seq<char> {
    seq!['_', 'l', 'o', 'c', 'k', 'e', 'd']
}

/// The status suffix of an unlocked file's stem.
pub open spec fn decrypted_suffix() -> Seq<char> {
    seq!['_', 'd', 'e', 'c', 'r', 'y', 'p', 't', 'e', 'd']
}

/// The extension that every output file gets.
pub open spec fn png_ext() -> Seq<char> {
    seq!['.', 'p', 'n', 'g']
}

/// `s` ends with `suffix`.
pub open spec fn ends_with(s: Seq<char>, suffix: Seq<char>) -> bool {
    s.len() >= suffix.len() && s.skip(s.len() - suffix.len()) == suffix
}

/// `stem` with trailing `_locked` and `_decrypted` suffixes removed, one after
/// the other, until it ends in neither.
pub open spec fn strip_status_suffixes(stem: Seq<char>) -> Seq<char>
    decreases stem.len(),
{
    if ends_with(stem, locked_suffix()) {
        strip_status_suffixes(stem.take(stem.len() - 7))
    } else if ends_with(stem, decrypted_suffix()) {
        strip_status_suffixes(stem.take(stem.len() - 10))
    } else {
        stem
    }
}

/// The output name for a stem and a status suffix: the stem without earlier
/// status suffixes, the new suffix, and `.png`.
pub open spec fn output_name_of_stem(stem: Seq<char>, suffix: Seq<char>) -> Seq<char> {
    strip_status_suffixes(stem) + suffix + png_ext()
}

/// The output name for an input file name and a status suffix.
pub open spec fn output_file_name(input: Seq<char>, suffix: Seq<char>) -> Seq<char> {
    output_name_of_stem(file_stem_of(input), suffix)
}

fn chars_of(s: &str) -> (res: Vec<char>)
    ensures
        res@ == s@,
{
    let n = s.unicode_len();
    let mut out: Vec<char> = Vec::new();
    let mut i: usize = 0;
    while i < n
        invariant
            n == s@.len(),
            i <= n,
            out@ == s@.take(i as int),
        decreases n - i,
    {
        out.push(s.get_char(i));
        assert(s@.take(i + 1) =~= s@.take(i as int).push(s@[i as int]));
        i = i + 1;
    }
    assert(s@.take(n as int) =~= s@);
    out
}

/// Whether the first `k` characters of `chars` end with `suffix`.
fn prefix_ends_with(chars: &Vec<char>, k: usize, suffix: &[char]) -> (res: bool)
    requires
        k <= chars@.len(),
    ensures
        res == ends_with(chars@.take(k as int), suffix@),
{
    let m = suffix.len();
    if k < m {
        return false;
    }
    let start = k - m;
    let mut i: usize = 0;
    while i < m
        invariant
            m == suffix@.len(),
            start + m == k,
            k <= chars@.len(),
            i <= m,
            forall|j: int| 0 <= j < i ==> chars@[start + j] == suffix@[j],
        decreases m - i,
    {
        if chars[start + i] != suffix[i] {
            assert(chars@.take(k as int).skip(start as int)[i as int] != suffix@[i as int]);
            return false;
        }
        i = i + 1;
    }
    assert(chars@.take(k as int).skip(start as int) =~= suffix@);
    true
}

/// Builds the output name for `stem`: trailing `_locked` and `_decrypted`
/// suffixes are removed one after the other (so that they do not pile up),
/// then `suffix` and `.png` are appended.
pub fn output_name_for_stem(stem: &str, suffix: &str) -> (res: String)
    ensures
        res@ == output_name_of_stem(stem@, suffix@),
{
    let chars = chars_of(stem);
    let locked = ['_', 'l', 'o', 'c', 'k', 'e', 'd'];
    let decrypted = ['_', 'd', 'e', 'c', 'r', 'y', 'p', 't', 'e', 'd'];
    assert(locked@ =~= locked_suffix());
    assert(decrypted@ =~= decrypted_suffix());
    let mut k = chars.len();
    assert(chars@.take(k as int) =~= stem@);
    loop
        invariant
            k <= chars@.len(),
            chars@ == stem@,
            locked@ == locked_suffix(),
            decrypted@ == decrypted_suffix(),
            strip_status_suffixes(chars@.take(k as int)) == strip_status_suffixes(stem@),
        ensures
            k <= chars@.len(),
            strip_status_suffixes(stem@) == chars@.take(k as int),
        decreases k,
    {
        let ghost prefix = chars@.take(k as int);
        if prefix_ends_with(&chars, k, locked.as_slice()) {
            assert(prefix.take(prefix.len() - 7) =~= chars@.take(k - 7));
            k = k - 7;
        } else if prefix_ends_with(&chars, k, decrypted.as_slice()) {
            assert(prefix.take(prefix.len() - 10) =~= chars@.take(k - 10));
            k = k - 10;
        } else {
            break;
        }
    }
    let mut out = String::new();
    let mut i: usize = 0;
    while i < k
        invariant
            k <= chars@.len(),
            i <= k,
            out@ == chars@.take(i as int),
        decreases k - i,
    {
        push_char(&mut out, chars[i]);
        assert(chars@.take(i + 1) =~= chars@.take(i as int).push(chars@[i as int]));
        i = i + 1;
    }
    out.append(suffix);
    out.append(".png");
    proof {
        reveal_strlit(".png");
        assert(".png"@ =~= png_ext());
    }
    out
}

/// The output name for a path: that of its file name, `None` where it has none.
pub open spec fn output_path_name(path: Seq<char>, suffix: Seq<char>) -> Option<Seq<char>> {
    match path_file_name(path) {
        Some(name) => Some(output_file_name(name, suffix)),
        None => None,
    }
}

/// The name of the output file for `input`: the stem of its file name without
/// trailing status suffixes, then `suffix`, then `.png`; the directory part
/// is dropped. `None` where `input` has no file name (an empty path, `/`, or
/// one ending in `..`).
pub fn generate_output_name(input: &str, suffix: &str) -> (res: Option<String>)
    ensures
        is_portable_path(input@) ==> match output_path_name(input@, suffix@) {
            Some(expected) => res matches Some(name) && name@ == expected,
            None => res is None,
        },
        res matches Some(name) ==> exists|stem: Seq<char>| name@ == #[trigger] output_name_of_stem(stem, suffix@),
{
    match path_file_stem(input) {
        Some(stem) => {
            let name = output_name_for_stem(stem.as_str(), suffix);
            Some(name)
        },
        None => None,
    }
}

proof fn lemma_strip_is_clean(stem: Seq<char>)
    ensures
        !ends_with(strip_status_suffixes(stem), locked_suffix()),
        !ends_with(strip_status_suffixes(stem), decrypted_suffix()),
        strip_status_suffixes(stem) =~= stem.take(strip_status_suffixes(stem).len() as int),
        strip_status_suffixes(stem).len() <= stem.len(),
    decreases stem.len(),
{
    if ends_with(stem, locked_suffix()) {
        lemma_strip_is_clean(stem.take(stem.len() - 7));
    } else if ends_with(stem, decrypted_suffix()) {
        lemma_strip_is_clean(stem.take(stem.len() - 10));
    }
}

/// `tail` is made of `_locked` and `_decrypted` suffixes and nothing else.
pub open spec fn is_status_tail(tail: Seq<char>) -> bool
    decreases tail.len(),
{
    if tail.len() == 0 {
        true
    } else if ends_with(tail, seq!['_', 'l', 'o', 'c', 'k', 'e', 'd']) {
        is_status_tail(tail.take(tail.len() - 7))
    } else if ends_with(tail, seq!['_', 'd', 'e', 'c', 'r', 'y', 'p', 't', 'e', 'd']) {
        is_status_tail(tail.take(tail.len() - 10))
    } else {
        false
    }
}

proof fn lemma_status_tail_grows(tail: Seq<char>, word: Seq<char>)
    requires
        is_status_tail(tail),
        word == locked_suffix() || word == decrypted_suffix(),
    ensures
        is_status_tail(tail + word),
{
    let t = tail + word;
    assert(t.skip(t.len() - word.len()) =~= word);
    assert(t.take(t.len() - word.len()) =~= tail);
    if word == decrypted_suffix() {
        assert(t.skip(t.len() - 7)[0] == 'c');
        assert(!ends_with(t, seq!['_', 'l', 'o', 'c', 'k', 'e', 'd']));
        assert(ends_with(t, seq!['_', 'd', 'e', 'c', 'r', 'y', 'p', 't', 'e', 'd']));
    } else {
        assert(ends_with(t, seq!['_', 'l', 'o', 'c', 'k', 'e', 'd']));
    }
}

proof fn lemma_strip_leaves_status_tail(stem: Seq<char>)
    ensures
        is_status_tail(stem.skip(strip_status_suffixes(stem).len() as int)),
    decreases stem.len(),
{
    if ends_with(stem, locked_suffix()) || ends_with(stem, decrypted_suffix()) {
        let w = if ends_with(stem, locked_suffix()) {
            locked_suffix()
        } else {
            decrypted_suffix()
        };
        let rest = stem.take(stem.len() - w.len());
        assert(strip_status_suffixes(stem) == strip_status_suffixes(rest));
        lemma_strip_leaves_status_tail(rest);
        lemma_strip_is_clean(rest);
        let m = strip_status_suffixes(rest).len() as int;
        lemma_status_tail_grows(rest.skip(m), w);
        assert(stem.skip(m) =~= rest.skip(m) + w);
    } else {
        assert(stem.skip(stem.len() as int) =~= Seq::<char>::empty());
    }
}

/// The output name is made from the input's stem itself: a prefix of the
/// stem, kept character for character, then `suffix` and `.png`. What is cut
/// from the stem is only trailing `_locked` and `_decrypted` suffixes, and
/// every one of them, so the kept part ends in neither.
pub proof fn lemma_output_name_keeps_stem(stem: Seq<char>, suffix: Seq<char>)
    ensures
        exists|k: int|
            0 <= k <= stem.len() && output_name_of_stem(stem, suffix) == #[trigger] stem.take(k) + suffix
                + seq!['.', 'p', 'n', 'g'] && is_status_tail(stem.skip(k)) && !ends_with(
                stem.take(k),
                seq!['_', 'l', 'o', 'c', 'k', 'e', 'd'],
            ) && !ends_with(stem.take(k), seq!['_', 'd', 'e', 'c', 'r', 'y', 'p', 't', 'e', 'd']),
{
    lemma_strip_is_clean(stem);
    lemma_strip_leaves_status_tail(stem);
    let k = strip_status_suffixes(stem).len() as int;
    assert(strip_status_suffixes(stem) == stem.take(k));
    assert(locked_suffix() =~= seq!['_', 'l', 'o', 'c', 'k', 'e', 'd']);
    assert(decrypted_suffix() =~= seq!['_', 'd', 'e', 'c', 'r', 'y', 'p', 't', 'e', 'd']);
    assert(png_ext() =~= seq!['.', 'p', 'n', 'g']);
    assert(output_name_of_stem(stem, suffix) == stem.take(k) + suffix + seq!['.', 'p', 'n', 'g']);
}

proof fn lemma_last_dot_before_png(base: Seq<char>)
    ensures
        last_dot(base + png_ext()) == base.len(),
{
    let s = base + png_ext();
    assert(s.drop_last() =~= base + seq!['.', 'p', 'n']);
    assert(s.drop_last().drop_last() =~= base + seq!['.', 'p']);
    assert(s.drop_last().drop_last().drop_last() =~= base + seq!['.']);
    assert(last_dot(base + seq!['.']) == base.len());
    assert(last_dot(base + seq!['.', 'p']) == base.len());
    assert(last_dot(base + seq!['.', 'p', 'n']) == base.len());
}

/// Output names do not pile up status suffixes: naming the output of a file
/// that is itself a locked or unlocked output gives the name that the
/// first file would get. Such an output of a bare file name is again a
/// bare file name.
pub proof fn lemma_output_names_do_not_accumulate(name: Seq<char>, first: Seq<char>, second: Seq<char>)
    requires
        first == locked_suffix() || first == decrypted_suffix(),
    ensures
        output_file_name(output_file_name(name, first), second) == output_file_name(name, second),
        is_bare_file_name(name) ==> is_bare_file_name(output_file_name(name, first)),
{
    let base = strip_status_suffixes(file_stem_of(name));
    let stem1 = base + first;
    let out1 = output_file_name(name, first);
    assert(out1 =~= stem1 + png_ext());
    lemma_last_dot_before_png(stem1);
    assert(file_stem_of(out1) =~= stem1);
    lemma_strip_is_clean(file_stem_of(name));
    assert(stem1.skip(stem1.len() - first.len()) =~= first);
    if first == decrypted_suffix() {
        assert(stem1.skip(stem1.len() - 7)[0] == 'c');
        assert(!ends_with(stem1, locked_suffix()));
        assert(stem1.take(stem1.len() - 10) =~= base);
    } else {
        assert(stem1.take(stem1.len() - 7) =~= base);
    }
    assert(strip_status_suffixes(stem1) == strip_status_suffixes(base));
    assert(strip_status_suffixes(base) == base);
    if is_bare_file_name(name) {
        lemma_output_of_bare_name_is_bare(name, first);
    }
}

proof fn lemma_trailing_segment(path: Seq<char>)
    ensures
        trailing_segment(path).len() <= path.len(),
        trailing_segment(path) =~= path.skip(path.len() - trailing_segment(path).len()),
        forall|i: int| 0 <= i < trailing_segment(path).len() ==> #[trigger] trailing_segment(path)[i] != '/',
    decreases path.len(),
{
    if path.len() > 0 && path.last() != '/' {
        lemma_trailing_segment(path.drop_last());
    }
}

proof fn lemma_portable_prefix(path: Seq<char>, k: int)
    requires
        is_portable_path(path),
        0 <= k <= path.len(),
    ensures
        is_portable_path(path.take(k)),
{
    assert forall|i: int| 0 <= i < path.take(k).len() implies #[trigger] path.take(k)[i] != '\\'
        && path.take(k)[i] != ':' by {
        assert(path.take(k)[i] == path[i]);
    }
}

proof fn lemma_file_name_is_bare(path: Seq<char>)
    requires
        is_portable_path(path),
    ensures
        path_file_name(path) matches Some(name) ==> is_bare_file_name(name),
    decreases path.len(),
{
    let seg = trailing_segment(path);
    lemma_trailing_segment(path);
    if path.len() == 0 {
    } else if seg.len() == 0 {
        lemma_portable_prefix(path, path.len() - 1);
        assert(path.take(path.len() - 1) =~= path.drop_last());
        lemma_file_name_is_bare(path.drop_last());
    } else if seg =~= seq!['.'] {
        if seg.len() != path.len() {
            lemma_portable_prefix(path, path.len() - 1);
            lemma_file_name_is_bare(path.take(path.len() - 1));
        }
    } else if seg =~= seq!['.', '.'] {
    } else {
        let start = path.len() - seg.len();
        assert forall|i: int| 0 <= i < seg.len() implies #[trigger] seg[i] != '/' && seg[i] != '\\'
            && seg[i] != ':' by {
            assert(seg[i] == path[start + i]);
        }
        assert(!(seg.len() == 1 && seg[0] == '.'));
        assert(!(seg.len() == 2 && seg[0] == '.' && seg[1] == '.'));
    }
}

proof fn lemma_bare_name_is_its_file_name(name: Seq<char>)
    requires
        is_bare_file_name(name),
    ensures
        is_portable_path(name),
        path_file_name(name) == Some(name),
{
    lemma_segment_without_slash(name);
    assert(!(trailing_segment(name) =~= seq!['.']));
    assert(!(trailing_segment(name) =~= seq!['.', '.']));
}

proof fn lemma_segment_without_slash(path: Seq<char>)
    requires
        forall|i: int| 0 <= i < path.len() ==> #[trigger] path[i] != '/',
    ensures
        trailing_segment(path) =~= path,
    decreases path.len(),
{
    if path.len() > 0 {
        let init = path.drop_last();
        assert forall|i: int| 0 <= i < init.len() implies #[trigger] init[i] != '/' by {
            assert(init[i] == path[i]);
        }
        lemma_segment_without_slash(init);
        assert(init.push(path.last()) =~= path);
    }
}

/// Output names do not pile up status suffixes, for any portable path:
/// naming the output of a path's locked or unlocked output gives the name
/// that the path itself would get; the output itself is a bare file name.
pub proof fn lemma_output_paths_do_not_accumulate(path: Seq<char>, first: Seq<char>, second: Seq<char>)
    requires
        is_portable_path(path),
        first == locked_suffix() || first == decrypted_suffix(),
    ensures
        output_path_name(path, first) matches Some(out) ==> {
            &&& is_bare_file_name(out)
            &&& output_path_name(out, second) == output_path_name(path, second)
        },
{
    lemma_file_name_is_bare(path);
    if let Some(name) = path_file_name(path) {
        lemma_output_names_do_not_accumulate(name, first, second);
        lemma_bare_name_is_its_file_name(output_file_name(name, first));
    }
}

proof fn lemma_last_dot_bounds(name: Seq<char>)
    ensures
        -1 <= last_dot(name) < name.len(),
        last_dot(name) >= 0 ==> name[last_dot(name)] == '.',
    decreases name.len(),
{
    if name.len() > 0 && name.last() != '.' {
        lemma_last_dot_bounds(name.drop_last());
    }
}

proof fn lemma_output_of_bare_name_is_bare(name: Seq<char>, first: Seq<char>)
    requires
        is_bare_file_name(name),
        first == locked_suffix() || first == decrypted_suffix(),
    ensures
        is_bare_file_name(output_file_name(name, first)),
{
    let stem = file_stem_of(name);
    let base = strip_status_suffixes(stem);
    let stem1 = base + first;
    let out1 = output_file_name(name, first);
    assert(out1 =~= stem1 + png_ext());
    lemma_last_dot_bounds(name);
    lemma_strip_is_clean(stem);
    assert(stem.len() <= name.len());
    assert forall|i: int| 0 <= i < out1.len() implies #[trigger] out1[i] != '/' && out1[i] != '\\'
        && out1[i] != ':' by {
        if i < base.len() {
            assert(out1[i] == base[i]);
            assert(base[i] == stem[i]);
            assert(stem[i] == name[i]);
        } else if i < stem1.len() {
            assert(out1[i] == first[i - base.len()]);
        } else {
            assert(out1[i] == png_ext()[i - stem1.len()]);
        }
    }
}

/// `ext` spells the word `lower` (or `upper`, its upper-case form) with each
/// letter in either case.
pub open spec fn spells(ext: Seq<char>, lower: Seq<char>, upper: Seq<char>) -> bool {
    &&& ext.len() == lower.len()
    &&& upper.len() == lower.len()
    &&& forall|i: int| 0 <= i < ext.len() ==> #[trigger] ext[i] == lower[i] || ext[i] == upper[i]
}

/// The extensions that the front end offers for locking and unlocking, in
/// any letter case: png, jpg, jpeg, webp and bmp.
pub open spec fn is_image_extension(ext: Seq<char>) -> bool {
    ||| spells(ext, seq!['p', 'n', 'g'], seq!['P', 'N', 'G'])
    ||| spells(ext, seq!['j', 'p', 'g'], seq!['J', 'P', 'G'])
    ||| spells(ext, seq!['j', 'p', 'e', 'g'], seq!['J', 'P', 'E', 'G'])
    ||| spells(ext, seq!['w', 'e', 'b', 'p'], seq!['W', 'E', 'B', 'P'])
    ||| spells(ext, seq!['b', 'm', 'p'], seq!['B', 'M', 'P'])
}

/// A file name whose extension is one of the image extensions.
pub open spec fn is_image_file_name(name: Seq<char>) -> bool {
    match extension_of(name) {
        Some(ext) => is_image_extension(ext),
        None => false,
    }
}

/// `c` in ASCII lower case, as `char::to_ascii_lowercase` gives it: `A` to
/// `Z` become `a` to `z`, every other character stays.
pub open spec fn lower_ascii(c: char) -> char {
    if 'A' <= c && c <= 'Z' {
        ((c as int) + 32) as char
    } else {
        c
    }
}

/// `s`, lower-cased, is `word`. For a `word` of ASCII characters other than
/// `k`, this is also what `str::to_lowercase` gives: no other character
/// lower-cases to a single such ASCII character.
pub open spec fn lowercases_to(s: Seq<char>, word: Seq<char>) -> bool {
    &&& s.len() == word.len()
    &&& forall|i: int| 0 <= i < s.len() ==> #[trigger] lower_ascii(s[i]) == word[i]
}

/// A character lower-cases to the ASCII letter `lower` exactly when it is
/// `lower` or the letter 32 code points below it, its upper-case form; it
/// lower-cases to a character that is no ASCII letter exactly when it is
/// that character.
pub(crate) proof fn lemma_lower_ascii_char(c: char, lower: char)
    ensures
        'a' <= lower && lower <= 'z' ==> (lower_ascii(c) == lower <==> (c == lower || (c as int) + 32
            == (lower as int))),
        !('a' <= lower && lower <= 'z') && !('A' <= lower && lower <= 'Z') ==> (lower_ascii(c) == lower
            <==> c == lower),
{
    if 'A' <= c && c <= 'Z' {
        assert(((c as int) + 32) as char as int == (c as int) + 32);
    }
}

/// Spelling a lower-case ASCII word with each letter in either case is
/// lower-casing to that word.
pub proof fn lemma_spells_is_lowercasing(ext: Seq<char>, lower: Seq<char>, upper: Seq<char>)
    requires
        lower.len() == upper.len(),
        forall|i: int| 0 <= i < lower.len() ==> 'a' <= #[trigger] lower[i] && lower[i] <= 'z'
            && (upper[i] as int) + 32 == (lower[i] as int),
    ensures
        spells(ext, lower, upper) <==> lowercases_to(ext, lower),
{
    if spells(ext, lower, upper) {
        assert forall|i: int| 0 <= i < ext.len() implies #[trigger] lower_ascii(ext[i]) == lower[i] by {
            assert('a' <= lower[i] && lower[i] <= 'z');
        }
    }
    if lowercases_to(ext, lower) {
        assert forall|i: int| 0 <= i < ext.len() implies #[trigger] ext[i] == lower[i] || ext[i] == upper[i] by {
            let c = ext[i];
            assert(lower_ascii(c) == lower[i]);
            assert('a' <= lower[i] && lower[i] <= 'z');
            if 'A' <= c && c <= 'Z' {
                assert(((c as int) + 32) as char as int == (c as int) + 32);
                assert(c as int == upper[i] as int);
                assert(c == upper[i]);
            }
        }
    }
}

/// A directory entry is offered as an image exactly when its name has an
/// extension and that extension, lower-cased, is `png`, `jpg`, `jpeg`,
/// `webp` or `bmp`; any other extension (`gif`, `tiff`, ...) or none is not
/// an image.
pub proof fn lemma_image_file_names(name: Seq<char>)
    ensures
        is_image_file_name(name) <==> (extension_of(name) matches Some(ext) && {
            ||| lowercases_to(ext, seq!['p', 'n', 'g'])
            ||| lowercases_to(ext, seq!['j', 'p', 'g'])
            ||| lowercases_to(ext, seq!['j', 'p', 'e', 'g'])
            ||| lowercases_to(ext, seq!['w', 'e', 'b', 'p'])
            ||| lowercases_to(ext, seq!['b', 'm', 'p'])
        }),
{
    if let Some(ext) = extension_of(name) {
        lemma_spells_is_lowercasing(ext, seq!['p', 'n', 'g'], seq!['P', 'N', 'G']);
        lemma_spells_is_lowercasing(ext, seq!['j', 'p', 'g'], seq!['J', 'P', 'G']);
        lemma_spells_is_lowercasing(ext, seq!['j', 'p', 'e', 'g'], seq!['J', 'P', 'E', 'G']);
        lemma_spells_is_lowercasing(ext, seq!['w', 'e', 'b', 'p'], seq!['W', 'E', 'B', 'P']);
        lemma_spells_is_lowercasing(ext, seq!['b', 'm', 'p'], seq!['B', 'M', 'P']);
    }
}

/// Index just past the last `.` of `chars`, or 0 where there is none.
fn after_last_dot(chars: &Vec<char>) -> (res: usize)
    ensures
        res == last_dot(chars@) + 1,
{
    let mut k = chars.len();
    assert(chars@.take(k as int) =~= chars@);
    while k > 0 && chars[k - 1] != '.'
        invariant
            k <= chars@.len(),
            last_dot(chars@) == last_dot(chars@.take(k as int)),
        decreases k,
    {
        assert(chars@.take(k as int).drop_last() =~= chars@.take(k - 1));
        k = k - 1;
    }
    k
}

/// Whether `chars` from `start` on spells the word `lower`/`upper`.
fn spells_from(chars: &Vec<char>, start: usize, lower: &[char], upper: &[char]) -> (res: bool)
    requires
        start <= chars@.len(),
        lower@.len() == upper@.len(),
    ensures
        res == spells(chars@.skip(start as int), lower@, upper@),
{
    let n = chars.len();
    if n - start != lower.len() {
        return false;
    }
    let mut i: usize = 0;
    while i < lower.len()
        invariant
            n == chars@.len(),
            start <= n,
            n - start == lower@.len(),
            lower@.len() == upper@.len(),
            i <= lower@.len(),
            forall|j: int|
                0 <= j < i ==> #[trigger] chars@[start + j] == lower@[j] || chars@[start + j] == upper@[j],
        decreases lower@.len() - i,
    {
        let c = chars[start + i];
        if c != lower[i] && c != upper[i] {
            assert(chars@.skip(start as int)[i as int] == c);
            return false;
        }
        i = i + 1;
    }
    assert forall|j: int| 0 <= j < chars@.skip(start as int).len() implies #[trigger] chars@.skip(
        start as int,
    )[j] == lower@[j] || chars@.skip(start as int)[j] == upper@[j] by {
        assert(chars@.skip(start as int)[j] == chars@[start + j]);
    }
    true
}

/// Whether `name` has one of the image extensions (png, jpg, jpeg, webp, bmp)
/// in any letter case.
pub fn is_image_file(name: &str) -> (res: bool)
    ensures
        res == is_image_file_name(name@),
{
    let chars = chars_of(name);
    let start = after_last_dot(&chars);
    if start <= 1 {
        return false;
    }
    proof {
        lemma_last_dot_bounds(chars@);
    }
    spells_from(&chars, start, ['p', 'n', 'g'].as_slice(), ['P', 'N', 'G'].as_slice())
        || spells_from(&chars, start, ['j', 'p', 'g'].as_slice(), ['J', 'P', 'G'].as_slice())
        || spells_from(&chars, start, ['j', 'p', 'e', 'g'].as_slice(), ['J', 'P', 'E', 'G'].as_slice())
        || spells_from(&chars, start, ['w', 'e', 'b', 'p'].as_slice(), ['W', 'E', 'B', 'P'].as_slice())
        || spells_from(&chars, start, ['b', 'm', 'p'].as_slice(), ['B', 'M', 'P'].as_slice())
}

/// `a` comes strictly before `b` in lexicographic order of code points, the
/// order of `String`'s `Ord` (UTF-8 keeps code point order byte by byte).
pub open spec fn char_seq_lt(a: Seq<char>, b: Seq<char>) -> bool
    decreases a.len(),
{
    if b.len() == 0 {
        false
    } else if a.len() == 0 {
        true
    } else if a[0] != b[0] {
        (a[0] as u32) < (b[0] as u32)
    } else {
        char_seq_lt(a.drop_first(), b.drop_first())
    }
}

/// `a` may stand before `b` in sorted order: `b` is not strictly before `a`.
pub open spec fn in_order(a: Seq<char>, b: Seq<char>) -> bool {
    !char_seq_lt(b, a)
}

/// The names are in ascending order: each is in order with the next.
pub open spec fn is_sorted_names(s: Seq<Seq<char>>) -> bool {
    forall|i: int, j: int| 0 <= i && j == i + 1 && j < s.len() ==> #[trigger] in_order(s[i], s[j])
}

/// The character sequences of a sequence of strings.
pub open spec fn views_of(v: Seq<String>) -> Seq<Seq<char>> {
    v.map_values(|s: String| s@)
}

/// The image file names among `names`.
pub open spec fn image_names(names: Seq<Seq<char>>) -> Seq<Seq<char>> {
    names.filter(|n: Seq<char>| is_image_file_name(n))
}

proof fn lemma_lt_asymmetric(a: Seq<char>, b: Seq<char>)
    ensures
        char_seq_lt(a, b) ==> !char_seq_lt(b, a),
    decreases a.len(),
{
    if a.len() > 0 && b.len() > 0 && a[0] == b[0] {
        lemma_lt_asymmetric(a.drop_first(), b.drop_first());
    }
}

fn chars_lt(a: &Vec<char>, b: &Vec<char>) -> (res: bool)
    ensures
        res == char_seq_lt(a@, b@),
{
    let mut i: usize = 0;
    assert(a@.skip(0) =~= a@ && b@.skip(0) =~= b@);
    loop
        invariant
            i <= a@.len(),
            i <= b@.len(),
            char_seq_lt(a@, b@) == char_seq_lt(a@.skip(i as int), b@.skip(i as int)),
        decreases a@.len() - i,
    {
        if i == b.len() {
            return false;
        }
        if i == a.len() {
            return true;
        }
        let (x, y) = (a[i], b[i]);
        assert(a@.skip(i as int)[0] == x && b@.skip(i as int)[0] == y);
        if x != y {
            return (x as u32) < (y as u32);
        }
        assert(a@.skip(i as int).drop_first() =~= a@.skip(i + 1));
        assert(b@.skip(i as int).drop_first() =~= b@.skip(i + 1));
        i = i + 1;
    }
}

proof fn lemma_insert_to_multiset(s: Seq<Seq<char>>, j: int, x: Seq<char>)
    requires
        0 <= j <= s.len(),
    ensures
        s.insert(j, x).to_multiset() =~= s.to_multiset().insert(x),
{
    let t = s.insert(j, x);
    assert(t.remove(j) =~= s);
    t.to_multiset_ensures();
    assert(t[j] == x);
    assert(t.contains(x));
}

/// The image files among the names of a directory's files, in ascending
/// order: those whose extension is png, jpg, jpeg, webp or bmp in any letter
/// case, sorted as `Vec<String>::sort` sorts them.
pub fn select_image_files(names: &Vec<String>) -> (res: Vec<String>)
    ensures
        is_sorted_names(views_of(res@)),
        views_of(res@).to_multiset() == image_names(views_of(names@)).to_multiset(),
{
    let mut files: Vec<String> = Vec::new();
    let mut keys: Vec<Vec<char>> = Vec::new();
    let ghost mut gs: Seq<Seq<char>> = Seq::empty();
    let ghost all = views_of(names@);
    let mut i: usize = 0;
    proof {
        let pred = |n: Seq<char>| is_image_file_name(n);
        all.take(0).lemma_filter_len(pred);
        assert(image_names(all.take(0)) =~= gs);
    }
    while i < names.len()
        invariant
            all == views_of(names@),
            i <= names@.len(),
            files@.len() == gs.len(),
            keys@.len() == gs.len(),
            forall|k: int| 0 <= k < gs.len() ==> #[trigger] files@[k]@ == gs[k],
            forall|k: int| 0 <= k < gs.len() ==> #[trigger] keys@[k]@ == gs[k],
            is_sorted_names(gs),
            gs.to_multiset() == image_names(all.take(i as int)).to_multiset(),
        decreases names@.len() - i,
    {
        let name = names[i].clone();
        let ghost before = image_names(all.take(i as int));
        proof {
            assert(all[i as int] == name@);
            assert(all.take(i + 1) =~= all.take(i as int).push(name@));
            all.take(i as int).lemma_filter_push(name@, |n: Seq<char>| is_image_file_name(n));
            before.to_multiset_ensures();
        }
        if is_image_file(name.as_str()) {
            let key = chars_of(name.as_str());
            let mut j: usize = 0;
            while j < keys.len() && !chars_lt(&key, &keys[j])
                invariant
                    j <= keys@.len(),
                    keys@.len() == gs.len(),
                    key@ == name@,
                    forall|k: int| 0 <= k < gs.len() ==> #[trigger] keys@[k]@ == gs[k],
                    forall|k: int| 0 <= k < j ==> !char_seq_lt(key@, #[trigger] gs[k]),
                decreases keys@.len() - j,
            {
                j = j + 1;
            }
            let ghost old_gs = gs;
            proof {
                gs = gs.insert(j as int, name@);
                lemma_insert_to_multiset(old_gs, j as int, name@);
                if j < old_gs.len() {
                    lemma_lt_asymmetric(name@, old_gs[j as int]);
                }
                assert forall|a: int, b: int| 0 <= a && b == a + 1 && b < gs.len() implies #[trigger] in_order(
                    gs[a],
                    gs[b],
                ) by {
                    if b < j {
                        assert(gs[a] == old_gs[a] && gs[b] == old_gs[b]);
                    } else if b == j {
                        assert(gs[a] == old_gs[a]);
                    } else if a == j {
                    } else {
                        assert(gs[a] == old_gs[a - 1] && gs[b] == old_gs[b - 1]);
                    }
                }
            }
            let ghost old_files = files@;
            let ghost old_keys = keys@;
            files.insert(j, name);
            keys.insert(j, key);
            proof {
                assert forall|k: int| 0 <= k < gs.len() implies files@[k]@ == gs[k] && keys@[k]@
                    == gs[k] by {
                    if k < j {
                        assert(files@[k] == old_files[k] && keys@[k] == old_keys[k]);
                        assert(gs[k] == old_gs[k]);
                    } else if k > j {
                        assert(files@[k] == old_files[k - 1] && keys@[k] == old_keys[k - 1]);
                        assert(gs[k] == old_gs[k - 1]);
                    }
                }
            }
        }
        i = i + 1;
    }
    proof {
        assert(all.take(names@.len() as int) =~= all);
        assert(views_of(files@) =~= gs);
    }
    files
}

} // verus!
