//! Thumbnails and application icons: which file represents an installed
//! application, and how a shell bitmap becomes a PNG data URI.
use vstd::prelude::*;
use base64::Engine;
use crate::text::{chars_of, is_white, push_str, string_of, to_lowercase, lowercase, trim, trim_char, trim_char_chars, trim_chars};
use crate::uninstall::{chosen_candidate, command_candidates_spec, ext_is, name_stem, norm_spec, split_command_line, split_given};
use crate::shell::path_is_file;
use crate::winpath::{file_name, name_extension};

verus! {

/// `raw` without its trailing `,<index>` when what follows the last comma is
/// an icon index (after trimming and dropping leading `-`, only ASCII
/// digits) and something precedes the comma; the text unchanged otherwise.
pub open spec fn strip_icon_index(raw: Seq<char>) -> Seq<char> {
    let i = crate::winpath::last_index(raw, ',');
    if i > 0 && only_digits(strip_dashes(trim(raw.skip(i + 1)))) {
        raw.take(i)
    } else {
        raw
    }
}

/// Leading `-` removed (`trim_start_matches('-')`).
pub open spec fn strip_dashes(s: Seq<char>) -> Seq<char>
    decreases s.len(),
{
    if s.len() > 0 && s[0] == '-' {
        strip_dashes(s.drop_first())
    } else {
        s
    }
}

pub open spec fn only_digits(s: Seq<char>) -> bool {
    forall|k: int| 0 <= k < s.len() ==> crate::text::is_ascii_digit(#[trigger] s[k])
}

/// The file a registry `DisplayIcon` names: its shapes are `path`,
/// `"path",0` and `path,-102`; the index is dropped, then the text trimmed
/// and unquoted. `None` when nothing is left.
pub open spec fn display_icon_path_spec(raw: Seq<char>) -> Option<Seq<char>> {
    let cleaned = trim_char(trim(strip_icon_index(trim(raw))), '"');
    if cleaned.len() > 0 {
        Some(cleaned)
    } else {
        None
    }
}

fn strip_dashes_chars(s: &Vec<char>) -> (r: Vec<char>)
    ensures
        r@ == strip_dashes(s@),
{
    let mut lo: usize = 0;
    proof {
        assert(s@.skip(0) =~= s@);
    }
    while lo < s.len() && s[lo] == '-'
        invariant
            lo <= s@.len(),
            strip_dashes(s@) == strip_dashes(s@.skip(lo as int)),
        decreases s@.len() - lo,
    {
        proof {
            assert(s@.skip(lo as int).drop_first() =~= s@.skip(lo + 1));
        }
        lo = lo + 1;
    }
    let r = crate::text::slice_chars(s, lo, s.len());
    proof {
        assert(r@ =~= s@.skip(lo as int));
    }
    r
}

fn only_digits_chars(s: &Vec<char>) -> (b: bool)
    ensures
        b == only_digits(s@),
{
    let mut k: usize = 0;
    while k < s.len()
        invariant
            k <= s@.len(),
            forall|j: int| 0 <= j < k ==> crate::text::is_ascii_digit(#[trigger] s@[j]),
        decreases s@.len() - k,
    {
        if !('0' <= s[k] && s[k] <= '9') {
            proof {
                assert(!crate::text::is_ascii_digit(s@[k as int]));
            }
            return false;
        }
        k = k + 1;
    }
    true
}

/// The file an application's `DisplayIcon` value names, if any.
pub fn display_icon_path(raw: &str) -> (r: Option<String>)
    ensures
        r matches Some(p) ==> display_icon_path_spec(raw@) == Some(p@),
        r is None ==> display_icon_path_spec(raw@) is None,
{
    let t = trim_chars(&chars_of(raw));
    proof {
        crate::winpath::lemma_last_index(t@, ',');
    }
    let mut i: usize = t.len();
    while i > 0 && t[i - 1] != ','
        invariant
            i <= t@.len(),
            forall|j: int| i <= j < t@.len() ==> t@[j] != ',',
        decreases i,
    {
        i = i - 1;
    }
    proof {
        if i > 0 {
            assert(crate::winpath::last_index(t@, ',') == i - 1);
        } else {
            assert(crate::winpath::last_index(t@, ',') == -1);
        }
    }
    let without: Vec<char> = if i > 1 {
        let tail = crate::text::slice_chars(&t, i, t.len());
        let tt = trim_chars(&tail);
        let d = strip_dashes_chars(&tt);
        proof {
            assert(tail@ =~= t@.skip(i as int));
        }
        if only_digits_chars(&d) {
            let h = crate::text::slice_chars(&t, 0, i - 1);
            proof {
                assert(h@ =~= t@.take(i - 1));
            }
            h
        } else {
            t.clone()
        }
    } else {
        t.clone()
    };
    let cleaned = trim_char_chars(&trim_chars(&without), '"');
    if cleaned.len() > 0 {
        Some(string_of(&cleaned))
    } else {
        None
    }
}

/// An install folder as recorded: trimmed and unquoted.
pub fn icon_folder(location: &str) -> (r: String)
    ensures
        r@ == trim_char(trim(location@), '"'),
{
    let t = trim_chars(&chars_of(location));
    let d = trim_char_chars(&t, '"');
    string_of(&d)
}

/// The file a `DisplayIcon` value names, if any.
pub open spec fn display_choice(display_icon: Option<&str>) -> Option<Seq<char>> {
    match display_icon {
        Some(raw) => display_icon_path_spec(raw@),
        None => None,
    }
}

/// The uninstaller program of an uninstall command line, split as the
/// disk's answers for its candidates choose (`split_command_line_probed`).
pub open spec fn program_choice(uninstall_string: Option<&str>, answers: Seq<bool>) -> Option<Seq<char>> {
    match uninstall_string {
        Some(raw) => Some(split_given(raw@, chosen_candidate(trim(raw@), answers)).0),
        None => None,
    }
}

pub open spec fn string_option_view(o: Option<String>) -> Option<Seq<char>> {
    match o {
        Some(s) => Some(s@),
        None => None,
    }
}

/// The icon source, in order of preference: the `DisplayIcon` file when it
/// exists; else the executable found for the installation (in its install
/// folder or its Windows Installer record); else the uninstaller program
/// when it exists.
pub open spec fn icon_choice(
    display: Option<Seq<char>>,
    display_exists: bool,
    installed: Option<Seq<char>>,
    program: Option<Seq<char>>,
    program_exists: bool,
) -> Option<Seq<char>> {
    if display is Some && display_exists {
        display
    } else if installed is Some {
        installed
    } else if program is Some && program_exists {
        program
    } else {
        None
    }
}

/// The icon source chosen from the candidates and what the disk said of
/// them (see `icon_choice`).
pub fn icon_choice_exec(
    display: Option<String>,
    display_is_file: bool,
    installed: Option<String>,
    program: Option<String>,
    program_is_file: bool,
) -> (r: Option<String>)
    ensures
        string_option_view(r) == icon_choice(
            string_option_view(display),
            display_is_file,
            string_option_view(installed),
            string_option_view(program),
            program_is_file,
        ),
{
    if display.is_some() && display_is_file {
        display
    } else if installed.is_some() {
        installed
    } else if program.is_some() && program_is_file {
        program
    } else {
        None
    }
}

/// The file whose icon best represents an installed application.
/// `installed` is what its install folder or its Windows Installer record
/// gave (the best executable there, or the product icon), which the caller
/// looks up on disk. Whether the `DisplayIcon` file, the candidate programs
/// of the uninstall command and the uninstaller program are files is asked
/// of the disk; whatever it answers, the result is `icon_choice_exec` for
/// those answers.
pub fn app_icon_source(
    display_icon: Option<&str>,
    installed: Option<String>,
    uninstall_string: Option<&str>,
) -> (r: Option<String>)
    ensures
        exists|display_exists: bool, program_exists: bool, answers: Seq<bool>|
            string_option_view(r) == #[trigger] icon_choice(
                display_choice(display_icon),
                display_exists,
                string_option_view(installed),
                program_choice(uninstall_string, answers),
                program_exists,
            ),
{
    let ghost installed_view = string_option_view(installed);
    let display = match display_icon {
        Some(raw) => display_icon_path(raw),
        None => None,
    };
    let ghost dv = string_option_view(display);
    assert(dv == display_choice(display_icon));
    let display_exists = match &display {
        Some(p) => path_is_file(p.as_str()),
        None => false,
    };
    if (display.is_some() && display_exists) || installed.is_some() {
        let r = icon_choice_exec(display, display_exists, installed, None, false);
        proof {
            let any: Seq<bool> = Seq::empty();
            assert(string_option_view(r) == icon_choice(
                dv,
                display_exists,
                installed_view,
                program_choice(uninstall_string, any),
                false,
            ));
        }
        return r;
    }
    match uninstall_string {
        Some(raw) => {
            let (program, rest) = split_command_line(raw);
            let ghost answers = choose|answers: Seq<bool>|
                answers.len() == command_candidates_spec(raw@).len() && (program@, rest@) == #[trigger] split_given(
                    raw@,
                    chosen_candidate(trim(raw@), answers),
                );
            let program_exists = path_is_file(program.as_str());
            let ghost pv = program_choice(uninstall_string, answers);
            assert(pv == Some(program@));
            let r = icon_choice_exec(display, display_exists, installed, Some(program), program_exists);
            proof {
                assert(string_option_view(r) == icon_choice(dv, display_exists, installed_view, pv, program_exists));
            }
            r
        },
        None => {
            let r = icon_choice_exec(display, display_exists, installed, None, false);
            proof {
                let any: Seq<bool> = Seq::empty();
                assert(program_choice(uninstall_string, any) is None);
                assert(string_option_view(r) == icon_choice(
                    dv,
                    display_exists,
                    installed_view,
                    program_choice(uninstall_string, any),
                    false,
                ));
            }
            r
        },
    }
}

/// An executable found in an install folder: its file name and size.
pub struct ExeCandidate {
    pub file_name: String,
    pub size: u64,
}

/// Name starts of installers and helpers, which rarely carry the logo.
pub open spec fn helper_stem(stem: Seq<char>) -> bool {
    crate::text::starts_with(stem, "unins000"@) || crate::text::starts_with(stem, "uninstall"@)
        || crate::text::starts_with(stem, "uninst"@) || crate::text::starts_with(stem, "setup"@)
        || crate::text::starts_with(stem, "installer"@)
}

/// How well an executable fits the folder it is in: whether its name and
/// the folder's match, and its size. `None` when it is not an `.exe` or is
/// an installer or helper.
pub open spec fn exe_score(folder_key: Seq<char>, c: ExeCandidate) -> Option<(bool, u64)> {
    let name = c.file_name@;
    let stem = norm_spec(name_stem(name));
    if !ext_is(name, "exe"@) || helper_stem(stem) {
        None
    } else {
        Some(
            (
                folder_key.len() > 0 && (crate::text::contains(folder_key, stem) || crate::text::contains(
                    stem,
                    folder_key,
                )),
                c.size,
            ),
        )
    }
}

pub open spec fn score_lt(a: (bool, u64), b: (bool, u64)) -> bool {
    (!a.0 && b.0) || (a.0 == b.0 && a.1 < b.1)
}

/// The best of the first `n` candidates: a later one wins only with a
/// strictly better score (name match first, then size).
pub open spec fn best_upto(folder_key: Seq<char>, cs: Seq<ExeCandidate>, n: int) -> Option<int>
    decreases n,
{
    if n <= 0 {
        None
    } else {
        let best = best_upto(folder_key, cs, n - 1);
        match exe_score(folder_key, cs[n - 1]) {
            Some(s) => match best {
                Some(b) => if score_lt(exe_score(folder_key, cs[b])->0, s) {
                    Some(n - 1)
                } else {
                    best
                },
                None => Some(n - 1),
            },
            None => best,
        }
    }
}

/// The folder's name as executables are matched against it.
pub open spec fn folder_key(folder_name: Seq<char>) -> Seq<char> {
    norm_spec(lowercase(folder_name))
}

fn exe_score_exec(key: &Vec<char>, c: &ExeCandidate) -> (r: Option<(bool, u64)>)
    ensures
        r == exe_score(key@, *c),
{
    let name = chars_of(c.file_name.as_str());
    let stem_chars = crate::uninstall::name_stem_exec(&name);
    let stem = crate::uninstall::norm_chars(&stem_chars);
    if !crate::uninstall::ext_is_exec(&name, "exe") {
        return None;
    }
    let helper = crate::text::starts_with_chars(&stem, &chars_of("unins000"))
        || crate::text::starts_with_chars(&stem, &chars_of("uninstall"))
        || crate::text::starts_with_chars(&stem, &chars_of("uninst"))
        || crate::text::starts_with_chars(&stem, &chars_of("setup"))
        || crate::text::starts_with_chars(&stem, &chars_of("installer"));
    if helper {
        return None;
    }
    let matches = key.len() > 0 && (crate::text::contains_chars(key, &stem) || crate::text::contains_chars(&stem, key));
    Some((matches, c.size))
}

/// Picks the executable in an install folder (named `folder_name`) most
/// likely to carry the app's branding: one whose name matches the folder's,
/// otherwise the largest.
pub fn best_exe(folder_name: &str, candidates: &Vec<ExeCandidate>) -> (r: Option<usize>)
    ensures
        match r {
            Some(i) => best_upto(folder_key(folder_name@), candidates@, candidates@.len() as int) == Some(i as int),
            None => best_upto(folder_key(folder_name@), candidates@, candidates@.len() as int) is None,
        },
{
    let lower = to_lowercase(folder_name);
    let key = crate::uninstall::norm_chars(&chars_of(lower.as_str()));
    let mut best: Option<usize> = None;
    let mut best_score: (bool, u64) = (false, 0);
    let mut i: usize = 0;
    while i < candidates.len()
        invariant
            i <= candidates@.len(),
            key@ == folder_key(folder_name@),
            match best {
                Some(b) => b < i && best_upto(key@, candidates@, i as int) == Some(b as int) && exe_score(
                    key@,
                    candidates@[b as int],
                ) == Some(best_score),
                None => best_upto(key@, candidates@, i as int) is None,
            },
        decreases candidates@.len() - i,
    {
        match exe_score_exec(&key, &candidates[i]) {
            Some(s) => {
                let better = match best {
                    Some(_) => (!best_score.0 && s.0) || (best_score.0 == s.0 && best_score.1 < s.1),
                    None => true,
                };
                if better {
                    best = Some(i);
                    best_score = s;
                }
            },
            None => {},
        }
        i = i + 1;
    }
    best
}

/// One pixel converted from the shell's premultiplied BGRA to straight RGBA.
/// Some thumbnail handlers leave the alpha channel entirely zero for opaque
/// images; then every pixel is taken as opaque.
pub open spec fn unpremultiply_pixel(p: Seq<u8>, opaque: bool) -> Seq<u8> {
    let (b, g, r, a) = (p[0], p[1], p[2], p[3]);
    if opaque {
        seq![r, g, b, 255u8]
    } else if a == 0 {
        seq![0u8, 0u8, 0u8, 0u8]
    } else {
        seq![unmultiply(r, a), unmultiply(g, a), unmultiply(b, a), a]
    }
}

/// A channel divided back out of its alpha, capped at 255.
pub open spec fn unmultiply(c: u8, a: u8) -> u8 {
    let v = (c as int * 255) / (a as int);
    if v > 255 {
        255u8
    } else {
        v as u8
    }
}

/// Every pixel (each full group of four bytes) has zero alpha.
pub open spec fn all_alpha_zero(px: Seq<u8>) -> bool {
    forall|i: int| 0 <= i < px.len() / 4 ==> #[trigger] px[4 * i + 3] == 0
}

pub open spec fn pixel(px: Seq<u8>, i: int) -> Seq<u8> {
    px.subrange(4 * i, 4 * i + 4)
}

fn unmultiply_exec(c: u8, a: u8) -> (r: u8)
    requires
        a > 0,
    ensures
        r == unmultiply(c, a),
{
    let v: u32 = (c as u32 * 255) / (a as u32);
    if v > 255 {
        255
    } else {
        v as u8
    }
}

/// Converts the shell's premultiplied BGRA pixels to the straight RGBA
/// that PNG stores; a trailing partial pixel is left as it is.
pub fn unpremultiply(px: &Vec<u8>) -> (r: Vec<u8>)
    ensures
        r@.len() == px@.len(),
        forall|i: int| 0 <= i < px@.len() / 4 ==> #[trigger] pixel(r@, i) == unpremultiply_pixel(
            pixel(px@, i),
            all_alpha_zero(px@),
        ),
        forall|j: int| 4 * (px@.len() / 4) <= j < px@.len() ==> r@[j] == px@[j],
{
    let n = px.len() / 4;
    let mut opaque = true;
    let mut i: usize = 0;
    while i < n
        invariant
            n == px@.len() / 4,
            px@.len() <= usize::MAX,
            i <= n,
            opaque == forall|k: int| 0 <= k < i ==> #[trigger] px@[4 * k + 3] == 0,
        decreases n - i,
    {
        proof {
            let len = px@.len() as int;
            assert(4 * i + 3 < len) by (nonlinear_arith)
                requires
                    i < n,
                    n == len / 4,
                    len >= 0,
            ;
        }
        if px[4 * i + 3] != 0 {
            opaque = false;
        }
        i = i + 1;
    }
    let mut out = px.clone();
    let mut k: usize = 0;
    while k < n
        invariant
            n == px@.len() / 4,
            px@.len() <= usize::MAX,
            k <= n,
            out@.len() == px@.len(),
            opaque == all_alpha_zero(px@),
            forall|m: int| 0 <= m < k ==> #[trigger] pixel(out@, m) == unpremultiply_pixel(pixel(px@, m), opaque),
            forall|j: int| 4 * k <= j < px@.len() ==> out@[j] == px@[j],
        decreases n - k,
    {
        proof {
            let len = px@.len() as int;
            assert(4 * k + 3 < len) by (nonlinear_arith)
                requires
                    k < n,
                    n == len / 4,
                    len >= 0,
            ;
        }
        let b = px[4 * k];
        let g = px[4 * k + 1];
        let r = px[4 * k + 2];
        let a = px[4 * k + 3];
        let (c0, c1, c2, c3) = if opaque {
            (r, g, b, 255u8)
        } else if a == 0 {
            (0u8, 0u8, 0u8, 0u8)
        } else {
            (unmultiply_exec(r, a), unmultiply_exec(g, a), unmultiply_exec(b, a), a)
        };
        let ghost before = out@;
        out.set(4 * k, c0);
        out.set(4 * k + 1, c1);
        out.set(4 * k + 2, c2);
        out.set(4 * k + 3, c3);
        proof {
            assert(pixel(out@, k as int) =~= unpremultiply_pixel(pixel(px@, k as int), opaque));
            assert forall|m: int| 0 <= m < k + 1 implies #[trigger] pixel(out@, m) == unpremultiply_pixel(pixel(px@, m), opaque) by {
                if m < k {
                    assert(pixel(out@, m) =~= pixel(before, m));
                }
            }
        }
        k = k + 1;
    }
    out
}

/// What the `png` crate writes for an 8-bit RGBA image of the given size
/// and pixels: the encoding, or `None` when it refuses them.
pub uninterp spec fn png_rgba8(width: u32, height: u32, pixels: Seq<u8>) -> Option<Seq<u8>>;

/// The eight bytes every PNG file starts with.
pub open spec fn png_signature() -> Seq<u8> {
    seq![137u8, 80u8, 78u8, 71u8, 13u8, 10u8, 26u8, 10u8]
}

pub open spec fn opt_bytes(o: Option<Vec<u8>>) -> Option<Seq<u8>> {
    match o {
        Some(v) => Some(v@),
        None => None,
    }
}

/// Encodes 8-bit RGBA pixels as PNG with `png::Encoder` (header, then the
/// image data) into memory. The encoder refuses an empty width or height and
/// pixel data of any length other than width × height × 4, and nothing else
/// (writing into a `Vec` does not fail); what it writes starts with the PNG
/// signature. It computes width × height × 4 in `usize`, so that
/// product must fit.
#[verifier::external_body]
fn encode_png(width: u32, height: u32, pixels: &Vec<u8>) -> (r: Option<Vec<u8>>)
    requires
        width as int * height as int * 4 <= usize::MAX,
    ensures
        opt_bytes(r) == png_rgba8(width, height, pixels@),
        (width == 0 || height == 0 || pixels@.len() != width as int * height as int * 4) <==> r is None,
        r matches Some(b) ==> b@.len() >= 8 && b@.take(8) == png_signature(),
{
    let mut out = Vec::new();
    {
        let mut encoder = png::Encoder::new(&mut out, width, height);
        encoder.set_color(png::ColorType::Rgba);
        encoder.set_depth(png::BitDepth::Eight);
        let mut writer = encoder.write_header().ok()?;
        writer.write_image_data(pixels).ok()?;
    }
    Some(out)
}

/// The PNG for a shell bitmap of `width` × `height` premultiplied BGRA
/// pixels: converted to straight RGBA, then encoded.
pub fn png_from_bgra(width: u32, height: u32, bgra: &Vec<u8>) -> (r: Option<Vec<u8>>)
    requires
        width as int * height as int * 4 <= usize::MAX,
    ensures
        exists|rgba: Seq<u8>|
            rgba.len() == bgra@.len() && (forall|i: int| 0 <= i < bgra@.len() / 4 ==> #[trigger] pixel(rgba, i)
                == unpremultiply_pixel(pixel(bgra@, i), all_alpha_zero(bgra@))) && (forall|j: int|
                4 * (bgra@.len() / 4) <= j < bgra@.len() ==> rgba[j] == bgra@[j]) && opt_bytes(r) == png_rgba8(
                width,
                height,
                rgba,
            ),
        (width == 0 || height == 0 || bgra@.len() != width as int * height as int * 4) <==> r is None,
        r matches Some(b) ==> b@.len() >= 8 && b@.take(8) == png_signature(),
{
    let rgba = unpremultiply(bgra);
    encode_png(width, height, &rgba)
}

/// The size of a shell bitmap to render: `None` when its width is not
/// positive or its height is zero (a negative height means top-down rows),
/// or when either side is more than eight times the requested size (a
/// handler returning something absurd).
pub open spec fn bitmap_size_spec(width: i32, height: i32, max_size: u32) -> Option<(u32, u32)> {
    if width <= 0 || height == 0 {
        None
    } else {
        let w = width as int;
        let h = if height < 0 { -(height as int) } else { height as int };
        if w > max_size * 8 || h > max_size * 8 {
            None
        } else {
            Some((w as u32, h as u32))
        }
    }
}

pub fn bitmap_size(width: i32, height: i32, max_size: u32) -> (r: Option<(u32, u32)>)
    requires
        max_size * 8 <= u32::MAX,
    ensures
        r == bitmap_size_spec(width, height, max_size),
{
    if width <= 0 || height == 0 {
        return None;
    }
    let w: u32 = width as u32;
    let h: u32 = if height < 0 {
        if height == i32::MIN {
            2147483648u32
        } else {
            (0 - height) as u32
        }
    } else {
        height as u32
    };
    if w > max_size * 8 || h > max_size * 8 {
        None
    } else {
        Some((w, h))
    }
}

/// The character of a six-bit value in the standard base64 alphabet:
/// `A`–`Z`, `a`–`z`, `0`–`9`, `+`, `/`.
pub open spec fn base64_digit(n: int) -> char {
    if n < 26 {
        (65 + n) as char
    } else if n < 52 {
        (71 + n) as char
    } else if n < 62 {
        (n - 4) as char
    } else if n == 62 {
        '+'
    } else {
        '/'
    }
}

/// Standard base64 with padding (RFC 4648): each three bytes become four
/// characters of six bits each; a last group of one or two bytes is padded
/// with `=`.
pub open spec fn base64_standard(bytes: Seq<u8>) -> Seq<char>
    decreases bytes.len(),
{
    if bytes.len() == 0 {
        Seq::empty()
    } else if bytes.len() == 1 {
        let a = bytes[0] as int;
        seq![base64_digit(a / 4), base64_digit((a % 4) * 16), '=', '=']
    } else if bytes.len() == 2 {
        let a = bytes[0] as int;
        let b = bytes[1] as int;
        seq![base64_digit(a / 4), base64_digit((a % 4) * 16 + b / 16), base64_digit((b % 16) * 4), '=']
    } else {
        let a = bytes[0] as int;
        let b = bytes[1] as int;
        let c = bytes[2] as int;
        seq![
            base64_digit(a / 4),
            base64_digit((a % 4) * 16 + b / 16),
            base64_digit((b % 16) * 4 + c / 64),
            base64_digit(c % 64),
        ] + base64_standard(bytes.skip(3))
    }
}

/// Encodes bytes as padded standard base64 with the `base64` crate (its
/// `STANDARD` engine: the RFC 4648 alphabet, with padding).
#[verifier::external_body]
fn base64_encode(bytes: &Vec<u8>) -> (r: String)
    requires
        bytes@.len() <= usize::MAX / 2,
    ensures
        r@ == base64_standard(bytes@),
{
    base64::engine::general_purpose::STANDARD.encode(bytes)
}

/// The prefix of a PNG data URI.
pub const PNG_DATA_URI_PREFIX: &'static str = "data:image/png;base64,";

/// A PNG as a data URI, which the app's content policy allows for images.
pub fn png_data_uri(png: &Vec<u8>) -> (r: String)
    requires
        png@.len() <= usize::MAX / 2,
    ensures
        r@ == PNG_DATA_URI_PREFIX@ + base64_standard(png@),
{
    let mut s = PNG_DATA_URI_PREFIX.to_owned();
    let b = base64_encode(png);
    push_str(&mut s, b.as_str());
    s
}

} // verus!
