//! Classification of image paths by their file extension.
use vstd::prelude::*;

verus! {

/// The decoding family of a supported file.
#[derive(Debug, Clone, Copy, PartialEq, Eq, Structural)]
pub enum ImageFormat {
    Raster(RasterFormat),
    Vector(VectorFormat),
}

#[derive(Debug, Clone, Copy, PartialEq, Eq, Structural)]
pub enum RasterFormat {
    Jpeg,
    Png,
    Bmp,
    Gif,
    Tiff,
    Webp,
    Avif,
    Heic,
}

#[derive(Debug, Clone, Copy, PartialEq, Eq, Structural)]
pub enum VectorFormat {
    Svg,
}

/// A character with ASCII upper case folded to lower case.
pub open spec fn fold_case(c: char) -> int {
    if 65 <= (c as int) <= 90 {
        (c as int) + 32
    } else {
        c as int
    }
}

/// `a` and `b` are equal when ASCII case is ignored.
pub open spec fn same_ignoring_case(a: Seq<char>, b: Seq<char>) -> bool {
    &&& a.len() == b.len()
    &&& forall|i: int| 0 <= i < a.len() ==> fold_case(#[trigger] a[i]) == fold_case(b[i])
}

/// The format that a file extension names, in any letter case.
///
/// All the names on the allow-list are ASCII, so folding ASCII case decides
/// exactly as a full lower-casing of the extension would.
pub open spec fn format_of_extension(e: Seq<char>) -> Option<ImageFormat> {
    if same_ignoring_case(e, "jpg"@) || same_ignoring_case(e, "jpeg"@) {
        Some(ImageFormat::Raster(RasterFormat::Jpeg))
    } else if same_ignoring_case(e, "png"@) {
        Some(ImageFormat::Raster(RasterFormat::Png))
    } else if same_ignoring_case(e, "bmp"@) {
        Some(ImageFormat::Raster(RasterFormat::Bmp))
    } else if same_ignoring_case(e, "gif"@) {
        Some(ImageFormat::Raster(RasterFormat::Gif))
    } else if same_ignoring_case(e, "tiff"@) || same_ignoring_case(e, "tif"@) {
        Some(ImageFormat::Raster(RasterFormat::Tiff))
    } else if same_ignoring_case(e, "webp"@) {
        Some(ImageFormat::Raster(RasterFormat::Webp))
    } else if same_ignoring_case(e, "avif"@) {
        Some(ImageFormat::Raster(RasterFormat::Avif))
    } else if same_ignoring_case(e, "heic"@) {
        Some(ImageFormat::Raster(RasterFormat::Heic))
    } else if same_ignoring_case(e, "svg"@) {
        Some(ImageFormat::Vector(VectorFormat::Svg))
    } else {
        None
    }
}

/// Index of the last '.' or '/' of `p`, or -1 when it has neither.
pub open spec fn last_mark(p: Seq<char>) -> int
    decreases p.len(),
{
    if p.len() == 0 {
        -1
    } else if p.last() == '.' || p.last() == '/' {
        p.len() - 1
    } else {
        last_mark(p.drop_last())
    }
}

/// `p` ends in a '/' or in a "/." component.
pub open spec fn ends_in_separator(p: Seq<char>) -> bool {
    &&& p.len() > 0
    &&& (p.last() == '/' || (p.len() >= 2 && p.last() == '.' && p[p.len() - 2] == '/'))
}

/// The path without trailing separators and "." components, which do not
/// change what the last component is.
pub open spec fn trimmed(p: Seq<char>) -> Seq<char>
    decreases p.len(),
{
    if ends_in_separator(p) {
        trimmed(p.drop_last())
    } else {
        p
    }
}

/// The last component of `p` is "..".
pub open spec fn ends_in_parent(p: Seq<char>) -> bool {
    &&& p.len() >= 2
    &&& p.last() == '.'
    &&& p[p.len() - 2] == '.'
    &&& (p.len() == 2 || p[p.len() - 3] == '/')
}

/// The extension of a path, as `std::path::Path::extension` finds it on Unix:
/// trailing separators and "." components are ignored; the file name is what
/// follows the last '/'; a name ".." has none; otherwise the extension is
/// what follows the name's last '.', provided that this dot does not open
/// the name.
pub open spec fn extension_of(p: Seq<char>) -> Option<Seq<char>> {
    let q = trimmed(p);
    let d = last_mark(q);
    if d > 0 && q[d] == '.' && q[d - 1] != '/' && !ends_in_parent(q) {
        Some(q.skip(d + 1))
    } else {
        None
    }
}

/// The format of the file at path `p`.
pub open spec fn format_of_path(p: Seq<char>) -> Option<ImageFormat> {
    match extension_of(p) {
        Some(e) => format_of_extension(e),
        None => None,
    }
}

/// The extensions on the allow-list, in lower case.
pub open spec fn supported_extensions() -> Seq<Seq<char>> {
    seq![
        "jpg"@,
        "jpeg"@,
        "png"@,
        "bmp"@,
        "gif"@,
        "tiff"@,
        "tif"@,
        "webp"@,
        "avif"@,
        "heic"@,
        "svg"@,
    ]
}

proof fn lemma_last_mark_take(p: Seq<char>, i: int)
    requires
        0 <= i <= p.len(),
        forall|j: int| i <= j < p.len() ==> p[j] != '.' && p[j] != '/',
    ensures
        last_mark(p) == last_mark(p.take(i)),
    decreases p.len() - i,
{
    if i < p.len() {
        assert(p.drop_last().take(i) =~= p.take(i));
        lemma_last_mark_take(p.drop_last(), i);
    } else {
        assert(p.take(i) =~= p);
    }
}

proof fn lemma_last_mark_range(p: Seq<char>)
    ensures
        -1 <= last_mark(p) < p.len(),
        last_mark(p) >= 0 ==> (p[last_mark(p)] == '.' || p[last_mark(p)] == '/'),
    decreases p.len(),
{
    if p.len() > 0 {
        lemma_last_mark_range(p.drop_last());
    }
}

/// Whether `a` equals the lower-case word `b` when ASCII case is ignored.
fn same_ignoring_case_exec(a: &str, b: &str) -> (r: bool)
    ensures
        r == same_ignoring_case(a@, b@),
{
    let n = a.unicode_len();
    if n != b.unicode_len() {
        return false;
    }
    let mut i: usize = 0;
    while i < n
        invariant
            n == a@.len(),
            n == b@.len(),
            i <= n,
            forall|j: int| 0 <= j < i ==> fold_case(#[trigger] a@[j]) == fold_case(b@[j]),
        decreases n - i,
    {
        let x = a.get_char(i) as u32;
        let y = b.get_char(i) as u32;
        let fx: u32 = if 65 <= x && x <= 90 { x + 32 } else { x };
        let fy: u32 = if 65 <= y && y <= 90 { y + 32 } else { y };
        if fx != fy {
            return false;
        }
        i = i + 1;
    }
    true
}

impl ImageFormat {
    /// The format named by a file extension, ignoring letter case.
    pub fn from_extension(ext: &str) -> (r: Option<Self>)
        ensures
            r == format_of_extension(ext@),
    {
        if same_ignoring_case_exec(ext, "jpg") || same_ignoring_case_exec(ext, "jpeg") {
            Some(ImageFormat::Raster(RasterFormat::Jpeg))
        } else if same_ignoring_case_exec(ext, "png") {
            Some(ImageFormat::Raster(RasterFormat::Png))
        } else if same_ignoring_case_exec(ext, "bmp") {
            Some(ImageFormat::Raster(RasterFormat::Bmp))
        } else if same_ignoring_case_exec(ext, "gif") {
            Some(ImageFormat::Raster(RasterFormat::Gif))
        } else if same_ignoring_case_exec(ext, "tiff") || same_ignoring_case_exec(ext, "tif") {
            Some(ImageFormat::Raster(RasterFormat::Tiff))
        } else if same_ignoring_case_exec(ext, "webp") {
            Some(ImageFormat::Raster(RasterFormat::Webp))
        } else if same_ignoring_case_exec(ext, "avif") {
            Some(ImageFormat::Raster(RasterFormat::Avif))
        } else if same_ignoring_case_exec(ext, "heic") {
            Some(ImageFormat::Raster(RasterFormat::Heic))
        } else if same_ignoring_case_exec(ext, "svg") {
            Some(ImageFormat::Vector(VectorFormat::Svg))
        } else {
            None
        }
    }

    /// The extension of `path`, as [`extension_of`] defines it.
    pub fn extension(path: &str) -> (r: Option<&str>)
        ensures
            match r {
                Some(e) => extension_of(path@) == Some(e@),
                None => extension_of(path@) is None,
            },
    {
        let full = path.unicode_len();
        let mut t: usize = full;
        assert(path@.take(full as int) =~= path@);
        loop
            invariant
                full == path@.len(),
                t <= full,
                trimmed(path@) == trimmed(path@.take(t as int)),
            ensures
                t <= full,
                trimmed(path@) == trimmed(path@.take(t as int)),
                !ends_in_separator(path@.take(t as int)),
            decreases t,
        {
            let strip = t > 0 && (path.get_char(t - 1) == '/' || (t >= 2 && path.get_char(t - 1) == '.'
                && path.get_char(t - 2) == '/'));
            proof {
                let s = path@.take(t as int);
                if t > 0 {
                    assert(s.last() == path@[t - 1]);
                }
                if t >= 2 {
                    assert(s[s.len() - 2] == path@[t - 2]);
                }
                assert(strip == ends_in_separator(s));
                if strip {
                    assert(s.drop_last() =~= path@.take(t - 1));
                }
            }
            if !strip {
                break;
            }
            t = t - 1;
        }
        let q = path.substring_char(0, t);
        assert(q@ =~= path@.take(t as int));
        assert(trimmed(path@) == q@);
        let n = t;
        let path = q;
        let mut i: usize = n;
        while i > 0
            invariant
                n == path@.len(),
                i <= n,
                forall|j: int| i <= j < n ==> path@[j] != '.' && path@[j] != '/',
            ensures
                i <= n,
                forall|j: int| i <= j < n ==> path@[j] != '.' && path@[j] != '/',
                i > 0 ==> (path@[i - 1] == '.' || path@[i - 1] == '/'),
            decreases i,
        {
            let c = path.get_char(i - 1);
            if c == '.' || c == '/' {
                break;
            }
            i = i - 1;
        }
        proof {
            lemma_last_mark_take(path@, i as int);
            lemma_last_mark_range(path@);
            if i > 0 {
                assert(path@.take(i as int).last() == path@[i - 1]);
                assert(last_mark(path@) == i - 1);
                assert(path@.subrange(i as int, n as int) =~= path@.skip(i as int));
            } else {
                assert(path@.take(0) =~= Seq::<char>::empty());
            }
        }
        let parent = n >= 2 && path.get_char(n - 1) == '.' && path.get_char(n - 2) == '.' && (n == 2
            || path.get_char(n - 3) == '/');
        if i > 1 && path.get_char(i - 1) == '.' && path.get_char(i - 2) != '/' && !parent {
            Some(path.substring_char(i, n))
        } else {
            None
        }
    }

    /// The format of the file at `path`, from its extension.
    pub fn from_path(path: &str) -> (r: Option<Self>)
        ensures
            r == format_of_path(path@),
    {
        match Self::extension(path) {
            Some(e) => Self::from_extension(e),
            None => None,
        }
    }

    pub fn is_supported(path: &str) -> (r: bool)
        ensures
            r == (format_of_path(path@) is Some),
    {
        Self::from_path(path).is_some()
    }

    /// The allow-list of extensions, in lower case.
    pub fn get_supported_extensions() -> (r: Vec<&'static str>)
        ensures
            r@.map_values(|e: &str| e@) == supported_extensions(),
    {
        let r = vec!["jpg", "jpeg", "png", "bmp", "gif", "tiff", "tif", "webp", "avif", "heic", "svg"];
        assert(r@.map_values(|e: &str| e@) =~= supported_extensions());
        r
    }
}

} // verus!
