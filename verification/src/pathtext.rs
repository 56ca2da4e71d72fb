//! The byte-level text decisions of the batch pipeline: which file
//! extensions name images, which files the conversion walk takes, what the
//! target-format argument means, and how output paths are spelled. Paths are
//! handled as plain bytes with `/` as the separator, and the final component
//! of a path is taken to be a plain file name.

use vstd::prelude::*;

verus! {

/// ASCII lower-casing of one byte; bytes outside `A`..`Z` pass unchanged.
pub open spec fn lower_byte(c: u8) -> u8 {
    if 'A' as u8 <= c && c <= 'Z' as u8 {
        (c + 32) as u8
    } else {
        c
    }
}

/// ASCII lower-casing of a byte string.
pub open spec fn lower_bytes(s: Seq<u8>) -> Seq<u8> {
    s.map_values(|c: u8| lower_byte(c))
}

/// ASCII lower-casing of one byte.
fn to_lower_byte(c: u8) -> (r: u8)
    ensures
        r == lower_byte(c),
{
    if c >= 'A' as u8 && c <= 'Z' as u8 {
        c + 32
    } else {
        c
    }
}

/// ASCII lower-casing of a byte string.
pub fn to_lower_bytes(s: &[u8]) -> (r: Vec<u8>)
    ensures
        r@ == lower_bytes(s@),
{
    let n = s.len();
    let mut r: Vec<u8> = Vec::new();
    let mut i: usize = 0;
    while i < n
        invariant
            n == s@.len(),
            i <= n,
            r@.len() == i,
            forall|j: int| 0 <= j < i ==> r@[j] == lower_byte(s@[j]),
        decreases n - i,
    {
        r.push(to_lower_byte(s[i]));
        i = i + 1;
    }
    proof {
        assert(r@ =~= lower_bytes(s@));
    }
    r
}

/// Whether two byte strings hold the same bytes.
pub fn bytes_eq(a: &[u8], b: &[u8]) -> (r: bool)
    ensures
        r == (a@ == b@),
{
    let n = a.len();
    if n != b.len() {
        return false;
    }
    let mut i: usize = 0;
    while i < n
        invariant
            n == a@.len(),
            n == b@.len(),
            i <= n,
            forall|j: int| 0 <= j < i ==> a@[j] == b@[j],
        decreases n - i,
    {
        if a[i] != b[i] {
            return false;
        }
        i = i + 1;
    }
    proof {
        assert(a@ =~= b@);
    }
    true
}

/// Whether a byte string is the given three bytes.
fn eq_lit3(s: &[u8], c0: u8, c1: u8, c2: u8) -> (r: bool)
    ensures
        r == (s@ == seq![c0, c1, c2]),
{
    let r = s.len() == 3 && s[0] == c0 && s[1] == c1 && s[2] == c2;
    proof {
        if r {
            assert(s@ =~= seq![c0, c1, c2]);
        }
    }
    r
}

/// Whether a byte string is the given four bytes.
fn eq_lit4(s: &[u8], c0: u8, c1: u8, c2: u8, c3: u8) -> (r: bool)
    ensures
        r == (s@ == seq![c0, c1, c2, c3]),
{
    let r = s.len() == 4 && s[0] == c0 && s[1] == c1 && s[2] == c2 && s[3] == c3;
    proof {
        if r {
            assert(s@ =~= seq![c0, c1, c2, c3]);
        }
    }
    r
}

/// The extensions, in lower case, that the background-removal walk accepts
/// as image files.
pub open spec fn allowed_image_ext(ext: Seq<u8>) -> bool {
    let low = lower_bytes(ext);
    ||| low == seq!['j' as u8, 'p' as u8, 'g' as u8]
    ||| low == seq!['j' as u8, 'p' as u8, 'e' as u8, 'g' as u8]
    ||| low == seq!['p' as u8, 'n' as u8, 'g' as u8]
    ||| low == seq!['g' as u8, 'i' as u8, 'f' as u8]
    ||| low == seq!['b' as u8, 'm' as u8, 'p' as u8]
    ||| low == seq!['w' as u8, 'e' as u8, 'b' as u8, 'p' as u8]
    ||| low == seq!['t' as u8, 'i' as u8, 'f' as u8, 'f' as u8]
}

/// Decides, ignoring ASCII case, whether a file extension names one of the
/// raster formats the background-removal walk collects.
pub fn is_allowed_image_ext(ext: &[u8]) -> (r: bool)
    ensures
        r == allowed_image_ext(ext@),
{
    let low = to_lower_bytes(ext);
    let s = low.as_slice();
    eq_lit3(s, 'j' as u8, 'p' as u8, 'g' as u8) || eq_lit4(
        s,
        'j' as u8,
        'p' as u8,
        'e' as u8,
        'g' as u8,
    ) || eq_lit3(s, 'p' as u8, 'n' as u8, 'g' as u8) || eq_lit3(
        s,
        'g' as u8,
        'i' as u8,
        'f' as u8,
    ) || eq_lit3(s, 'b' as u8, 'm' as u8, 'p' as u8) || eq_lit4(
        s,
        'w' as u8,
        'e' as u8,
        'b' as u8,
        'p' as u8,
    ) || eq_lit4(s, 't' as u8, 'i' as u8, 'f' as u8, 'f' as u8)
}

/// Whether an extension names the vector format both walks skip.
pub open spec fn is_svg_ext(ext: Seq<u8>) -> bool {
    lower_bytes(ext) == seq!['s' as u8, 'v' as u8, 'g' as u8]
}

/// Decides, ignoring ASCII case, whether a file extension names the vector
/// format the tool skips.
pub fn is_svg_extension(ext: &[u8]) -> (r: bool)
    ensures
        r == is_svg_ext(ext@),
{
    let low = to_lower_bytes(ext);
    eq_lit3(low.as_slice(), 's' as u8, 'v' as u8, 'g' as u8)
}

/// What the conversion walk does with one directory entry, judged by its
/// extension against the requested target format.
#[derive(Clone, Copy, PartialEq, Eq, Structural, Debug)]
pub enum WalkAction {
    /// A vector image: reported and skipped.
    SkipSvg,
    /// The file already carries the target extension: passed over silently.
    AlreadyTarget,
    /// Queued for conversion.
    Convert,
}

/// The walk skips vector images, silently passes over files whose
/// lower-cased extension equals the target format, and queues the rest.
pub open spec fn walk_action_spec(ext: Seq<u8>, target: Seq<u8>) -> WalkAction {
    if is_svg_ext(ext) {
        WalkAction::SkipSvg
    } else if lower_bytes(ext) != target {
        WalkAction::Convert
    } else {
        WalkAction::AlreadyTarget
    }
}

/// Decides what the conversion walk does with a file whose extension is
/// `ext` when the requested target format is `target`.
pub fn classify_for_conversion(ext: &[u8], target: &[u8]) -> (r: WalkAction)
    ensures
        r == walk_action_spec(ext@, target@),
{
    if is_svg_extension(ext) {
        WalkAction::SkipSvg
    } else {
        let low = to_lower_bytes(ext);
        if !bytes_eq(low.as_slice(), target) {
            WalkAction::Convert
        } else {
            WalkAction::AlreadyTarget
        }
    }
}

/// The encodings a conversion may be asked to produce.
#[derive(Clone, Copy, PartialEq, Eq, Structural, Debug)]
pub enum TargetFormat {
    Png,
    Jpeg,
    Bmp,
    WebP,
}

/// The exact spellings the format argument accepts, and what each one
/// means; anything else is rejected.
pub open spec fn target_format_spec(s: Seq<u8>) -> Option<TargetFormat> {
    if s == seq!['p' as u8, 'n' as u8, 'g' as u8] {
        Some(TargetFormat::Png)
    } else if s == seq!['j' as u8, 'p' as u8, 'g' as u8] || s == seq![
        'j' as u8,
        'p' as u8,
        'e' as u8,
        'g' as u8,
    ] {
        Some(TargetFormat::Jpeg)
    } else if s == seq!['b' as u8, 'm' as u8, 'p' as u8] {
        Some(TargetFormat::Bmp)
    } else if s == seq!['w' as u8, 'e' as u8, 'b' as u8, 'p' as u8] {
        Some(TargetFormat::WebP)
    } else {
        None
    }
}

/// Parses the target-format argument; `None` is the unsupported-format
/// error of the conversion.
pub fn parse_target_format(s: &[u8]) -> (r: Option<TargetFormat>)
    ensures
        r == target_format_spec(s@),
{
    if eq_lit3(s, 'p' as u8, 'n' as u8, 'g' as u8) {
        Some(TargetFormat::Png)
    } else if eq_lit3(s, 'j' as u8, 'p' as u8, 'g' as u8) || eq_lit4(
        s,
        'j' as u8,
        'p' as u8,
        'e' as u8,
        'g' as u8,
    ) {
        Some(TargetFormat::Jpeg)
    } else if eq_lit3(s, 'b' as u8, 'm' as u8, 'p' as u8) {
        Some(TargetFormat::Bmp)
    } else if eq_lit4(s, 'w' as u8, 'e' as u8, 'b' as u8, 'p' as u8) {
        Some(TargetFormat::WebP)
    } else {
        None
    }
}

/// Appends one byte string to a vector.
fn extend_bytes(out: &mut Vec<u8>, s: &[u8])
    ensures
        final(out)@ == old(out)@ + s@,
{
    let n = s.len();
    let mut i: usize = 0;
    while i < n
        invariant
            n == s@.len(),
            i <= n,
            out@ == old(out)@ + s@.subrange(0, i as int),
        decreases n - i,
    {
        proof {
            assert(old(out)@ + s@.subrange(0, i + 1) =~= (old(out)@ + s@.subrange(0, i as int)).push(
                s@[i as int],
            ));
        }
        out.push(s[i]);
        i = i + 1;
    }
    proof {
        assert(s@.subrange(0, n as int) =~= s@);
    }
}

/// The name an output file gets when a stem is re-extended with the target
/// format: the stem, a dot, the extension.
pub fn output_file_name(stem: &[u8], target_ext: &[u8]) -> (r: Vec<u8>)
    ensures
        r@ == stem@ + seq!['.' as u8] + target_ext@,
{
    let mut r: Vec<u8> = Vec::new();
    extend_bytes(&mut r, stem);
    r.push('.' as u8);
    proof {
        assert(r@ =~= stem@ + seq!['.' as u8]);
    }
    extend_bytes(&mut r, target_ext);
    r
}

/// Where the extension dot of the final path component sits in `p[0..i)`:
/// the last dot of the component, unless that dot begins the component; `-1`
/// when the component has no extension.
pub open spec fn ext_dot_pos(p: Seq<u8>, i: int) -> int
    decreases i,
{
    if i <= 0 {
        -1
    } else if p[i - 1] == '/' as u8 {
        -1
    } else if p[i - 1] == '.' as u8 {
        if i >= 2 && p[i - 2] != '/' as u8 {
            i - 1
        } else {
            -1
        }
    } else {
        ext_dot_pos(p, i - 1)
    }
}

/// A path with the extension of its final component replaced: everything up
/// to that component's last extension dot, then a dot and the new extension;
/// a component without an extension keeps all its bytes.
pub open spec fn replace_ext_spec(p: Seq<u8>, ext: Seq<u8>) -> Seq<u8> {
    let d = ext_dot_pos(p, p.len() as int);
    (if d >= 0 {
        p.subrange(0, d)
    } else {
        p
    }) + seq!['.' as u8] + ext
}

/// Rewrites the extension of a path's final component to `ext`, as the
/// background-removal walk does when it saves its output beside the input
/// hierarchy.
pub fn replace_extension(path: &[u8], ext: &[u8]) -> (r: Vec<u8>)
    ensures
        r@ == replace_ext_spec(path@, ext@),
{
    let n = path.len();
    let mut i: usize = n;
    let mut dot: Option<usize> = None;
    loop
        invariant_except_break
            n == path@.len(),
            i <= n,
            dot.is_none(),
            ext_dot_pos(path@, n as int) == ext_dot_pos(path@, i as int),
        ensures
            match dot {
                Some(d) => ext_dot_pos(path@, n as int) == d && d < n,
                None => ext_dot_pos(path@, n as int) == -1,
            },
        decreases i,
    {
        if i == 0 {
            break ;
        }
        let c = path[i - 1];
        if c == '/' as u8 {
            break ;
        }
        if c == '.' as u8 {
            if i >= 2 && path[i - 2] != '/' as u8 {
                dot = Some(i - 1);
            }
            break ;
        }
        i = i - 1;
    }
    let stem_len = match dot {
        Some(d) => d,
        None => n,
    };
    let mut r: Vec<u8> = Vec::new();
    let mut k: usize = 0;
    while k < stem_len
        invariant
            stem_len <= n,
            n == path@.len(),
            k <= stem_len,
            r@.len() == k,
            forall|j: int| 0 <= j < k ==> r@[j] == path@[j],
        decreases stem_len - k,
    {
        r.push(path[k]);
        k = k + 1;
    }
    r.push('.' as u8);
    extend_bytes(&mut r, ext);
    proof {
        let d = ext_dot_pos(path@, n as int);
        if d >= 0 {
            assert(r@ =~= path@.subrange(0, d) + seq!['.' as u8] + ext@);
        } else {
            assert(r@ =~= path@ + seq!['.' as u8] + ext@);
        }
    }
    r
}

/// A directory and a relative path joined with a single separator.
pub open spec fn join_path_spec(dir: Seq<u8>, rel: Seq<u8>) -> Seq<u8> {
    if dir.len() == 0 {
        rel
    } else if dir.last() == '/' as u8 {
        dir + rel
    } else {
        dir + seq!['/' as u8] + rel
    }
}

/// Joins an output directory and a path relative to the source directory,
/// inserting a separator unless the directory already ends with one.
pub fn join_path(dir: &[u8], rel: &[u8]) -> (r: Vec<u8>)
    ensures
        r@ == join_path_spec(dir@, rel@),
{
    let mut r: Vec<u8> = Vec::new();
    extend_bytes(&mut r, dir);
    if dir.len() > 0 && dir[dir.len() - 1] != '/' as u8 {
        r.push('/' as u8);
        proof {
            assert(r@ =~= dir@ + seq!['/' as u8]);
        }
    }
    extend_bytes(&mut r, rel);
    proof {
        if dir@.len() == 0 {
            assert(r@ =~= rel@);
        }
    }
    r
}

/// The directory results are written to: the one asked for, or the source
/// directory when none was named.
pub fn choose_output_dir(output: Option<Vec<u8>>, source: Vec<u8>) -> (r: Vec<u8>)
    ensures
        r@ == (match output {
            Some(o) => o@,
            None => source@,
        }),
{
    match output {
        Some(o) => o,
        None => source,
    }
}

} // verus!
