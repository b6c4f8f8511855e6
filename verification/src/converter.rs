//! Choosing a converter for a file.
//!
//! Conversion itself runs external programs outside the library; which
//! program family handles which file is decided here, from the file's
//! extension.

use vstd::prelude::*;

use crate::chars::{chars_vec, string_of_chars};

verus! {

/// The program family that can convert a given file.
#[derive(Debug, PartialEq, Eq, Structural)]
pub enum ConverterType {
    Document,
    Image,
    Media,
    PDF,
}

/// Which converter programs were found on this machine.
#[derive(Debug)]
pub struct FileConverter {
    pub libreoffice_available: bool,
    pub imagemagick_available: bool,
    pub ffmpeg_available: bool,
    pub ghostscript_available: bool,
}

/// The character with upper-case ASCII letters lowered.
pub open spec fn ascii_lower(c: char) -> char {
    if 65 <= (c as u32) <= 90 {
        ((c as u32) + 32) as char
    } else {
        c
    }
}

/// The sequence with upper-case ASCII letters lowered.
pub open spec fn ascii_lower_seq(t: Seq<char>) -> Seq<char> {
    Seq::new(
        t.len(),
        |i: int|
            if 0 <= i < t.len() {
                ascii_lower(t[i])
            } else {
                ' '
            },
    )
}

/// Lowers upper-case ASCII letters, executably.
pub fn to_ascii_lower(s: &str) -> (r: String)
    ensures
        r@ == ascii_lower_seq(s@),
{
    let cs = chars_vec(s);
    let n = cs.len();
    let mut out: Vec<char> = Vec::new();
    let mut i: usize = 0;
    while i < n
        invariant
            n == cs@.len(),
            cs@ == s@,
            i == out@.len() <= n,
            forall|j: int| 0 <= j < i ==> out@[j] == ascii_lower_seq(s@)[j],
        decreases n - i,
    {
        let c = cs[i];
        let u = c as u32;
        if 65 <= u && u <= 90 {
            let lowered = crate::chars::char_from_u32(u + 32);
            match lowered {
                Some(lc) => {
                    out.push(lc);
                },
                None => {
                    proof {
                        assert(u + 32 < 0xD800);
                        assert(false);
                    }
                },
            }
        } else {
            out.push(c);
        }
        i = i + 1;
    }
    proof {
        assert(out@ =~= ascii_lower_seq(s@));
    }
    string_of_chars(&out)
}

/// The extension of a path: the text after the last dot of its last
/// component, if that component has a dot after its first character.
pub open spec fn spec_extension(p: Seq<char>) -> Option<Seq<char>> {
    let comp_start = match last_index_of(p, '/') {
        Option::Some(k) => k + 1,
        Option::None => 0,
    };
    let comp = p.skip(comp_start);
    match last_index_of(comp, '.') {
        Option::Some(d) => if d > 0 && d + 1 < comp.len() {
            Some(comp.skip(d + 1))
        } else {
            None
        },
        Option::None => None,
    }
}

/// The last position of `c` in `t`, if any.
pub open spec fn last_index_of(t: Seq<char>, c: char) -> Option<int>
    decreases t.len(),
{
    if t.len() == 0 {
        None
    } else if t.last() == c {
        Some(t.len() - 1)
    } else {
        last_index_of(t.drop_last(), c)
    }
}

/// The last position of `c`, executably.
fn last_index_at(v: &Vec<char>, lo: usize, c: char) -> (r: Option<usize>)
    requires
        lo <= v@.len(),
    ensures
        match r {
            Some(k) => lo <= k < v@.len() && last_index_of(v@.skip(lo as int), c) == Some(
                k - lo,
            ),
            None => last_index_of(v@.skip(lo as int), c) is None,
        },
{
    let n = v.len();
    let mut h = n;
    proof {
        assert(v@.skip(lo as int).take(n - lo) =~= v@.skip(lo as int));
    }
    while h > lo
        invariant
            lo <= h <= n,
            n == v@.len(),
            last_index_of(v@.skip(lo as int), c) == last_index_of(
                v@.skip(lo as int).take(h - lo),
                c,
            ),
        decreases h,
    {
        proof {
            let t = v@.skip(lo as int).take(h - lo);
            assert(t.last() == v@[h - 1]);
            assert(t.drop_last() =~= v@.skip(lo as int).take(h - 1 - lo));
        }
        if v[h - 1] == c {
            proof {
                assert(v@.skip(lo as int).take(h - lo).last() == c);
            }
            return Some(h - 1);
        }
        h = h - 1;
    }
    proof {
        assert(v@.skip(lo as int).take(0) =~= Seq::<char>::empty());
    }
    None
}

/// The extension of a path, executably, already lowered.
pub fn extension_of(path: &str) -> (r: Option<String>)
    ensures
        match r {
            Some(e) => spec_extension(path@) matches Some(x) && e@ == ascii_lower_seq(x),
            None => spec_extension(path@) is None,
        },
{
    let cs = chars_vec(path);
    let n = cs.len();
    let comp_start: usize = match last_index_at(&cs, 0, '/') {
        Some(k) => {
            proof {
                assert(cs@.skip(0) =~= cs@);
            }
            k + 1
        },
        None => {
            proof {
                assert(cs@.skip(0) =~= cs@);
            }
            0
        },
    };
    match last_index_at(&cs, comp_start, '.') {
        Some(d) => {
            let rel = d - comp_start;
            if rel > 0 && d + 1 < n {
                let raw = crate::parser::substring_chars(&cs, d + 1, n);
                proof {
                    assert(cs@.subrange(d + 1, n as int) =~= cs@.skip(comp_start as int).skip(
                        rel + 1,
                    ));
                }
                Some(to_ascii_lower(raw.as_str()))
            } else {
                None
            }
        },
        None => None,
    }
}

impl FileConverter {
    /// A converter table from what probing found; the probing itself runs
    /// outside the library.
    pub fn new(
        libreoffice_available: bool,
        imagemagick_available: bool,
        ffmpeg_available: bool,
        ghostscript_available: bool,
    ) -> (r: FileConverter)
        ensures
            r.libreoffice_available == libreoffice_available,
            r.imagemagick_available == imagemagick_available,
            r.ffmpeg_available == ffmpeg_available,
            r.ghostscript_available == ghostscript_available,
    {
        FileConverter {
            libreoffice_available,
            imagemagick_available,
            ffmpeg_available,
            ghostscript_available,
        }
    }

    /// Which program family handles the given lowered extension, if any.
    pub open spec fn spec_converter_for(ext: Seq<char>) -> Option<ConverterType> {
        if ext == "doc"@ || ext == "docx"@ || ext == "xls"@ || ext == "xlsx"@ || ext == "ppt"@
            || ext == "pptx"@ || ext == "odt"@ || ext == "ods"@ || ext == "odp"@ {
            Some(ConverterType::Document)
        } else if ext == "jpg"@ || ext == "jpeg"@ || ext == "png"@ || ext == "gif"@ || ext
            == "bmp"@ || ext == "webp"@ || ext == "tiff"@ {
            Some(ConverterType::Image)
        } else if ext == "mp4"@ || ext == "avi"@ || ext == "mkv"@ || ext == "mov"@ || ext
            == "mp3"@ || ext == "wav"@ || ext == "flac"@ {
            Some(ConverterType::Media)
        } else if ext == "pdf"@ || ext == "ps"@ || ext == "eps"@ {
            Some(ConverterType::PDF)
        } else {
            None
        }
    }

    /// Chooses the converter for a file from its path's extension; `None`
    /// when the path has no extension or the format is not supported.
    pub fn detect_converter_type(&self, input_path: &str) -> (r: Option<ConverterType>)
        ensures
            match r {
                Some(t) => spec_extension(input_path@) matches Some(x) && Self::spec_converter_for(
                    ascii_lower_seq(x),
                ) == Some(t),
                None => spec_extension(input_path@) is None || (
                spec_extension(input_path@) matches Some(x) && Self::spec_converter_for(
                    ascii_lower_seq(x),
                ) is None),
            },
    {
        match extension_of(input_path) {
            None => None,
            Some(ext) => converter_for(ext.as_str()),
        }
    }

    /// Whether the program family a conversion needs was found.
    pub fn available(&self, t: &ConverterType) -> (r: bool)
        ensures
            r == match *t {
                ConverterType::Document => self.libreoffice_available,
                ConverterType::Image => self.imagemagick_available,
                ConverterType::Media => self.ffmpeg_available,
                ConverterType::PDF => self.ghostscript_available,
            },
    {
        match t {
            ConverterType::Document => self.libreoffice_available,
            ConverterType::Image => self.imagemagick_available,
            ConverterType::Media => self.ffmpeg_available,
            ConverterType::PDF => self.ghostscript_available,
        }
    }
}

/// The program family for a lowered extension, executably.
fn converter_for(ext: &str) -> (r: Option<ConverterType>)
    ensures
        r == FileConverter::spec_converter_for(ext@),
{
    let e = ext;
    if str_is(e, "doc") || str_is(e, "docx") || str_is(e, "xls") || str_is(e, "xlsx") || str_is(
        e,
        "ppt",
    ) || str_is(e, "pptx") || str_is(e, "odt") || str_is(e, "ods") || str_is(e, "odp") {
        Some(ConverterType::Document)
    } else if str_is(e, "jpg") || str_is(e, "jpeg") || str_is(e, "png") || str_is(e, "gif")
        || str_is(e, "bmp") || str_is(e, "webp") || str_is(e, "tiff") {
        Some(ConverterType::Image)
    } else if str_is(e, "mp4") || str_is(e, "avi") || str_is(e, "mkv") || str_is(e, "mov")
        || str_is(e, "mp3") || str_is(e, "wav") || str_is(e, "flac") {
        Some(ConverterType::Media)
    } else if str_is(e, "pdf") || str_is(e, "ps") || str_is(e, "eps") {
        Some(ConverterType::PDF)
    } else {
        None
    }
}

/// String-slice equality against a fixed name.
fn str_is(a: &str, b: &str) -> (r: bool)
    ensures
        r == (a@ == b@),
{
    crate::json::str_eq(a, b)
}

} // verus!
