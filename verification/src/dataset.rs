//! Dataset handling of the stress test: which files count as images, which
//! perturbation tags a file name carries, and which files a directory tree
//! contributes.
//!
//! Paths are `/`-separated strings, read the way `std::path::Path` reads them
//! on Unix: empty and `.` components are skipped, and a final `..` has no file
//! name.

use vstd::prelude::*;
use vstd::string::StringExecFns;

use crate::text::{
    ascii_lower_seq, chars_eq, chars_of, contains_chars, contains_run, last_index_of, lower_chars,
    rfind_char,
};

verus! {

proof fn lemma_last_index_bound(s: Seq<char>, c: char)
    ensures
        last_index_of(s, c) matches Some(i) ==> 0 <= i < s.len() && s[i] == c,
    decreases s.len(),
{
    if s.len() > 0 && s.last() != c {
        lemma_last_index_bound(s.drop_last(), c);
    }
}

/// The file name of the path made of the first `end` characters of `p`.
pub open spec fn file_name_upto(p: Seq<char>, end: int) -> Option<Seq<char>>
    decreases end,
{
    if end <= 0 || end > p.len() {
        None
    } else {
        let start = match last_index_of(p.subrange(0, end), '/') {
            Some(i) => i + 1,
            None => 0,
        };
        let seg = p.subrange(start, end);
        if seg.len() == 0 || seg == seq!['.'] {
            if start <= 0 || start > end {
                None
            } else {
                file_name_upto(p, start - 1)
            }
        } else if seg == seq!['.', '.'] {
            None
        } else {
            Some(seg)
        }
    }
}

/// Final normal component of a path, as `Path::file_name` gives it.
pub open spec fn file_name(p: Seq<char>) -> Option<Seq<char>> {
    file_name_upto(p, p.len() as int)
}

/// A file name split at its last dot: the part before it and the part after
/// it. A name without a dot, or whose only dot leads it, has no extension.
pub open spec fn split_extension(name: Seq<char>) -> (Seq<char>, Option<Seq<char>>) {
    match last_index_of(name, '.') {
        None => (name, None),
        Some(i) => if i <= 0 {
            (name, None)
        } else {
            (name.subrange(0, i), Some(name.subrange(i + 1, name.len() as int)))
        },
    }
}

/// `Path::file_stem`.
pub open spec fn file_stem(p: Seq<char>) -> Option<Seq<char>> {
    match file_name(p) {
        Some(n) => Some(split_extension(n).0),
        None => None,
    }
}

/// `Path::extension`.
pub open spec fn extension(p: Seq<char>) -> Option<Seq<char>> {
    match file_name(p) {
        Some(n) => split_extension(n).1,
        None => None,
    }
}

fn slice_chars(p: &Vec<char>, start: usize, end: usize) -> (v: Vec<char>)
    requires
        start <= end <= p@.len(),
    ensures
        v@ == p@.subrange(start as int, end as int),
{
    let mut v: Vec<char> = Vec::new();
    let mut i: usize = start;
    while i < end
        invariant
            start <= i <= end <= p@.len(),
            v@ == p@.subrange(start as int, i as int),
        decreases end - i,
    {
        v.push(p[i]);
        proof {
            assert(p@.subrange(start as int, i as int).push(p@[i as int]) =~= p@.subrange(start as int, i + 1));
        }
        i = i + 1;
    }
    v
}

/// Characters of the file name of `p`, if it has one.
fn file_name_chars(p: &Vec<char>) -> (r: Option<Vec<char>>)
    ensures
        match r {
            Some(n) => file_name(p@) == Some(n@),
            None => file_name(p@) is None,
        },
{
    let mut end: usize = p.len();
    loop
        invariant
            end <= p@.len(),
            file_name(p@) == file_name_upto(p@, end as int),
        decreases end,
    {
        if end == 0 {
            return None;
        }
        proof {
            lemma_last_index_bound(p@.subrange(0, end as int), '/');
        }
        let start: usize = match rfind_char(p, end, '/') {
            Some(i) => i + 1,
            None => 0,
        };
        let seg = slice_chars(p, start, end);
        let is_dot = seg.len() == 1 && seg[0] == '.';
        if seg.len() == 0 || is_dot {
            proof {
                assert(is_dot ==> seg@ =~= seq!['.']);
                assert(seg@ == seq!['.'] ==> is_dot);
            }
            if start == 0 {
                return None;
            }
            end = start - 1;
        } else {
            let is_dotdot = seg.len() == 2 && seg[0] == '.' && seg[1] == '.';
            proof {
                assert(is_dotdot ==> seg@ =~= seq!['.', '.']);
                assert(seg@ == seq!['.', '.'] ==> is_dotdot);
                assert(seg@ != seq!['.']);
            }
            if is_dotdot {
                return None;
            }
            return Some(seg);
        }
    }
}

/// The two halves of a file name around its last dot.
fn split_extension_chars(name: &Vec<char>) -> (r: (Vec<char>, Option<Vec<char>>))
    ensures
        r.0@ == split_extension(name@).0,
        match r.1 {
            Some(e) => split_extension(name@).1 == Some(e@),
            None => split_extension(name@).1 is None,
        },
{
    proof {
        lemma_last_index_bound(name@, '.');
        assert(name@.subrange(0, name@.len() as int) =~= name@);
    }
    match rfind_char(name, name.len(), '.') {
        None => (slice_chars(name, 0, name.len()), None),
        Some(i) => {
            if i == 0 {
                (slice_chars(name, 0, name.len()), None)
            } else {
                (slice_chars(name, 0, i), Some(slice_chars(name, i + 1, name.len())))
            }
        },
    }
}

/// The extensions the stress test reads, lowercase.
pub open spec fn is_image_extension(e: Seq<char>) -> bool {
    e == "jpg"@ || e == "jpeg"@ || e == "png"@ || e == "webp"@
}

/// A path names a supported image when its extension, ASCII-lowercased, is
/// `jpg`, `jpeg`, `png` or `webp`.
pub open spec fn supported_image(p: Seq<char>) -> bool {
    match extension(p) {
        Some(e) => is_image_extension(ascii_lower_seq(e)),
        None => false,
    }
}

/// Whether the stress test reads the file at `path`.
pub fn is_supported_image(path: &str) -> (r: bool)
    ensures
        r == supported_image(path@),
{
    let p = chars_of(path);
    let name = match file_name_chars(&p) {
        Some(n) => n,
        None => return false,
    };
    let (_, ext) = split_extension_chars(&name);
    let ext = match ext {
        Some(e) => e,
        None => return false,
    };
    let lower = lower_chars(&ext);
    let jpg = chars_of("jpg");
    let jpeg = chars_of("jpeg");
    let png = chars_of("png");
    let webp = chars_of("webp");
    chars_eq(&lower, &jpg) || chars_eq(&lower, &jpeg) || chars_eq(&lower, &png) || chars_eq(&lower, &webp)
}


/// Keyword → tag table, matched against the lowercased file stem in order.
pub open spec fn tag_patterns() -> Seq<(Seq<char>, Seq<char>)> {
    seq![
        ("jpeg"@, "jpeg"@),
        ("jpg"@, "jpeg"@),
        ("webp"@, "webp"@),
        ("resize"@, "resized"@),
        ("resized"@, "resized"@),
        ("crop"@, "cropped"@),
        ("cropped"@, "cropped"@),
        ("recompress"@, "recompressed"@),
        ("recompressed"@, "recompressed"@),
        ("night"@, "lowlight"@),
        ("lowlight"@, "lowlight"@),
    ]
}

/// One pattern applied: its tag is added when the keyword occurs in the stem
/// and the tag is not already present.
pub open spec fn tag_step(prev: Seq<Seq<char>>, stem: Seq<char>, needle: Seq<char>, label: Seq<char>) -> Seq<Seq<char>> {
    if contains_run(stem, needle) && !prev.contains(label) { prev.push(label) } else { prev }
}

/// Tags from the first `n` patterns.
pub open spec fn tags_upto(stem: Seq<char>, n: int) -> Seq<Seq<char>>
    decreases n,
{
    if n <= 0 {
        Seq::empty()
    } else {
        tag_step(tags_upto(stem, n - 1), stem, tag_patterns()[n - 1].0, tag_patterns()[n - 1].1)
    }
}

/// Tags of a path: matched against the file stem only, never against the
/// extension or the directories.
pub open spec fn perturbation_tags(p: Seq<char>) -> Seq<Seq<char>> {
    match file_stem(p) {
        Some(stem) => tags_upto(ascii_lower_seq(stem), tag_patterns().len() as int),
        None => Seq::empty(),
    }
}

pub open spec fn string_views(v: Seq<String>) -> Seq<Seq<char>> {
    v.map_values(|t: String| t@)
}

fn has_tag(tags: &Vec<String>, label: &str) -> (r: bool)
    ensures
        r == string_views(tags@).contains(label@),
{
    let mut i: usize = 0;
    while i < tags.len()
        invariant
            i <= tags@.len(),
            forall|j: int| 0 <= j < i ==> tags@[j]@ != label@,
        decreases tags@.len() - i,
    {
        if crate::text::str_is(tags[i].as_str(), label) {
            proof {
                assert(string_views(tags@)[i as int] == label@);
            }
            return true;
        }
        i = i + 1;
    }
    proof {
        if string_views(tags@).contains(label@) {
            let j = choose|j: int| 0 <= j < string_views(tags@).len() && string_views(tags@)[j] == label@;
            assert(tags@[j]@ == label@);
        }
    }
    false
}

fn apply_pattern(stem: &Vec<char>, needle: &str, label: &str, tags: &mut Vec<String>)
    ensures
        string_views(final(tags)@) == tag_step(string_views(old(tags)@), stem@, needle@, label@),
{
    let needle_chars = chars_of(needle);
    if contains_chars(stem, &needle_chars) && !has_tag(tags, label) {
        let ghost before = tags@;
        tags.push(String::from_str(label));
        proof {
            assert(string_views(tags@) =~= string_views(before).push(label@));
        }
    }
}

/// Perturbation tags a dataset file carries, from keywords in its file stem
/// (case-insensitive), each tag at most once, in table order of first match.
pub fn derive_perturbation_tags(path: &str) -> (tags: Vec<String>)
    ensures
        string_views(tags@) == perturbation_tags(path@),
{
    let mut tags: Vec<String> = Vec::new();
    let p = chars_of(path);
    let name = match file_name_chars(&p) {
        Some(n) => n,
        None => {
            proof {
                assert(string_views(tags@) =~= Seq::<Seq<char>>::empty());
            }
            return tags;
        },
    };
    let (stem, _) = split_extension_chars(&name);
    let stem = lower_chars(&stem);
    proof {
        assert(string_views(tags@) =~= tags_upto(stem@, 0));
    }
    apply_pattern(&stem, "jpeg", "jpeg", &mut tags);
    apply_pattern(&stem, "jpg", "jpeg", &mut tags);
    apply_pattern(&stem, "webp", "webp", &mut tags);
    apply_pattern(&stem, "resize", "resized", &mut tags);
    apply_pattern(&stem, "resized", "resized", &mut tags);
    apply_pattern(&stem, "crop", "cropped", &mut tags);
    apply_pattern(&stem, "cropped", "cropped", &mut tags);
    apply_pattern(&stem, "recompress", "recompressed", &mut tags);
    apply_pattern(&stem, "recompressed", "recompressed", &mut tags);
    apply_pattern(&stem, "night", "lowlight", &mut tags);
    apply_pattern(&stem, "lowlight", "lowlight", &mut tags);
    proof {
        reveal_with_fuel(tags_upto, 12);
    }
    tags
}


/// A directory tree as listed without following symbolic links.
pub enum FsNode {
    /// A regular file, by path.
    File(String),
    /// A symbolic link (to a file or a directory), by path; never followed.
    Symlink(String),
    /// A directory and its entries, in listing order.
    Dir(Vec<FsNode>),
}

/// Supported images of a tree, depth first in listing order.
pub open spec fn images_in(n: FsNode) -> Seq<Seq<char>>
    decreases n, 0int,
{
    match n {
        FsNode::File(p) => if supported_image(p@) { seq![p@] } else { Seq::empty() },
        FsNode::Symlink(_) => Seq::empty(),
        FsNode::Dir(children) => images_in_entries(children@, children@.len() as int),
    }
}

/// Supported images of the first `k` entries of a directory.
pub open spec fn images_in_entries(entries: Seq<FsNode>, k: int) -> Seq<Seq<char>>
    decreases entries, k,
{
    if k <= 0 || k > entries.len() {
        Seq::empty()
    } else {
        images_in_entries(entries, k - 1) + images_in(entries[k - 1])
    }
}

/// Symbolic links met in a tree, depth first in listing order.
pub open spec fn symlinks_in(n: FsNode) -> Seq<Seq<char>>
    decreases n, 0int,
{
    match n {
        FsNode::File(_) => Seq::empty(),
        FsNode::Symlink(p) => seq![p@],
        FsNode::Dir(children) => symlinks_in_entries(children@, children@.len() as int),
    }
}

pub open spec fn symlinks_in_entries(entries: Seq<FsNode>, k: int) -> Seq<Seq<char>>
    decreases entries, k,
{
    if k <= 0 || k > entries.len() {
        Seq::empty()
    } else {
        symlinks_in_entries(entries, k - 1) + symlinks_in(entries[k - 1])
    }
}

/// Regular files of a tree, depth first in listing order.
pub open spec fn files_in(n: FsNode) -> Seq<Seq<char>>
    decreases n, 0int,
{
    match n {
        FsNode::File(p) => seq![p@],
        FsNode::Symlink(_) => Seq::empty(),
        FsNode::Dir(children) => files_in_entries(children@, children@.len() as int),
    }
}

pub open spec fn files_in_entries(entries: Seq<FsNode>, k: int) -> Seq<Seq<char>>
    decreases entries, k,
{
    if k <= 0 || k > entries.len() {
        Seq::empty()
    } else {
        files_in_entries(entries, k - 1) + files_in(entries[k - 1])
    }
}

/// What a dataset folder contributes.
pub struct CollectedImages {
    /// Paths of the supported images, depth first in listing order.
    pub images: Vec<String>,
    /// Paths of the symbolic links that were skipped.
    pub skipped_symlinks: Vec<String>,
}

fn collect_into(node: &FsNode, out: &mut CollectedImages)
    ensures
        string_views(final(out).images@) == string_views(old(out).images@) + images_in(*node),
        string_views(final(out).skipped_symlinks@) == string_views(old(out).skipped_symlinks@) + symlinks_in(*node),
    decreases node,
{
    match node {
        FsNode::File(p) => {
            if is_supported_image(p.as_str()) {
                let ghost before = out.images@;
                out.images.push(p.clone());
                proof {
                    assert(string_views(out.images@) =~= string_views(before) + seq![p@]);
                }
            } else {
                assert(string_views(out.images@) =~= string_views(out.images@) + Seq::<Seq<char>>::empty());
            }
            assert(string_views(out.skipped_symlinks@) =~= string_views(out.skipped_symlinks@) + Seq::<Seq<char>>::empty());
        },
        FsNode::Symlink(p) => {
            let ghost before = out.skipped_symlinks@;
            out.skipped_symlinks.push(p.clone());
            proof {
                assert(string_views(out.skipped_symlinks@) =~= string_views(before) + seq![p@]);
                assert(string_views(out.images@) =~= string_views(out.images@) + Seq::<Seq<char>>::empty());
            }
        },
        FsNode::Dir(children) => {
            let ghost images0 = string_views(out.images@);
            let ghost links0 = string_views(out.skipped_symlinks@);
            let mut i: usize = 0;
            proof {
                assert(images0 + images_in_entries(children@, 0) =~= images0);
                assert(links0 + symlinks_in_entries(children@, 0) =~= links0);
            }
            while i < children.len()
                invariant
                    *node == FsNode::Dir(*children),
                    i <= children@.len(),
                    string_views(out.images@) == images0 + images_in_entries(children@, i as int),
                    string_views(out.skipped_symlinks@) == links0 + symlinks_in_entries(children@, i as int),
                decreases children@.len() - i,
            {
                proof {
                    let ghost n = *node;
                    assert(decreases_to!(n => n->Dir_0));
                    assert(decreases_to!(n->Dir_0 => n->Dir_0@));
                    assert(decreases_to!(n->Dir_0@ => n->Dir_0@[i as int]));
                }
                collect_into(&children[i], out);
                proof {
                    assert(images0 + images_in_entries(children@, i + 1) =~= images0 + images_in_entries(children@, i as int) + images_in(children@[i as int]));
                    assert(links0 + symlinks_in_entries(children@, i + 1) =~= links0 + symlinks_in_entries(children@, i as int) + symlinks_in(children@[i as int]));
                }
                i = i + 1;
            }
        },
    }
}

/// Supported images under a dataset folder, searched recursively without
/// following symbolic links; the links met are reported so that the caller
/// can warn about them.
pub fn collect_image_files(root: &FsNode) -> (res: CollectedImages)
    ensures
        string_views(res.images@) == images_in(*root),
        string_views(res.skipped_symlinks@) == symlinks_in(*root),
{
    let mut out = CollectedImages { images: Vec::new(), skipped_symlinks: Vec::new() };
    proof {
        assert(string_views(out.images@) + images_in(*root) =~= images_in(*root));
        assert(string_views(out.skipped_symlinks@) + symlinks_in(*root) =~= symlinks_in(*root));
    }
    collect_into(root, &mut out);
    out
}

} // verus!
