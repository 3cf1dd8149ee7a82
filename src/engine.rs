//! The CSS engine: parsing, minifying and printing raw CSS for the browsers
//! that support container queries.
use vstd::prelude::*;
use lightningcss::stylesheet::{MinifyOptions, ParserOptions, PrinterOptions, StyleSheet};
use lightningcss::targets::{Browsers, Targets};
use parcel_sourcemap::SourceMap;

verus! {

/// Lowest Chrome version printed for (105.0.0, as the engine encodes versions).
pub const CHROME_TARGET: u32 = 105 << 16;

/// Lowest Safari version printed for (16.0.0).
pub const SAFARI_TARGET: u32 = 16 << 16;

/// Lowest Firefox version printed for (110.0.0).
pub const FIREFOX_TARGET: u32 = 110 << 16;

/// Whether the engine parses, minifies and prints `raw` without error for the
/// given lowest Chrome, Safari and Firefox versions.
pub uninterp spec fn engine_accepts(raw: Seq<char>, chrome: u32, safari: u32, firefox: u32) -> bool;

/// The minified CSS that the engine prints for `raw` and the given lowest
/// Chrome, Safari and Firefox versions.
pub uninterp spec fn engine_css(raw: Seq<char>, chrome: u32, safari: u32, firefox: u32) -> Seq<char>;

/// The JSON of the source map that the engine collects while printing `raw`,
/// or `None` when it cannot be written out.
pub uninterp spec fn engine_map(raw: Seq<char>, chrome: u32, safari: u32, firefox: u32) -> Option<Seq<char>>;

/// The message of the first step of the engine that fails on `raw`.
pub uninterp spec fn engine_error(raw: Seq<char>, chrome: u32, safari: u32, firefox: u32) -> Seq<char>;

/// The view of an optional string.
pub open spec fn opt_view(o: Option<String>) -> Option<Seq<char>> {
    match o {
        Some(s) => Some(s@),
        None => None,
    }
}

/// Whether `m` starts with `p`.
pub open spec fn starts_with(m: Seq<char>, p: Seq<char>) -> bool {
    p.len() <= m.len() && m.subrange(0, p.len() as int) == p
}

/// Whether an engine message carries the label of the step that failed.
pub open spec fn engine_labelled(m: Seq<char>) -> bool {
    starts_with(m, "LightningCSS parse error: "@) || starts_with(m, "LightningCSS minify error: "@)
        || starts_with(m, "LightningCSS print error: "@)
}

/// Relies on lightningcss: `StyleSheet::parse` with default options,
/// `StyleSheet::minify` with default options and `StyleSheet::to_css` with
/// `minify` set, the given browser targets and a `parcel_sourcemap::SourceMap`
/// collecting mappings. Each step depends on the text and the options alone;
/// the first failing step gives the error text. The map is its JSON, when
/// `SourceMap::to_json` succeeds.
#[verifier::external_body]
fn run_engine(raw: &str, chrome: u32, safari: u32, firefox: u32) -> (r: Result<(String, Option<String>), String>)
    ensures
        r is Ok <==> engine_accepts(raw@, chrome, safari, firefox),
        r matches Ok(p) ==> p.0@ == engine_css(raw@, chrome, safari, firefox) && opt_view(p.1)
            == engine_map(raw@, chrome, safari, firefox),
        r matches Err(m) ==> m@ == engine_error(raw@, chrome, safari, firefox) && engine_labelled(m@),
{
    let browsers = Some(Browsers { chrome: Some(chrome), safari: Some(safari), firefox: Some(firefox), ..Browsers::default() });
    let mut sheet = match StyleSheet::parse(raw, ParserOptions::default()) {
        Ok(s) => s,
        Err(e) => return Err(format!("LightningCSS parse error: {e}")),
    };
    if let Err(e) = sheet.minify(MinifyOptions::default()) {
        return Err(format!("LightningCSS minify error: {e:?}"));
    }
    let mut map = SourceMap::new("/");
    match sheet.to_css(PrinterOptions { minify: true, targets: Targets { browsers, ..Targets::default() }, source_map: Some(&mut map), ..PrinterOptions::default() }) {
        Ok(out) => Ok((out.code, map.to_json(None).ok())),
        Err(e) => Err(format!("LightningCSS print error: {e:?}")),
    }
}

/// The text with leading and trailing whitespace removed, as `str::trim` removes it.
pub uninterp spec fn trim_of(s: Seq<char>) -> Seq<char>;

/// Relies on `str::trim`: the result depends on the text alone.
#[verifier::external_body]
fn trim(s: &str) -> (r: String)
    ensures
        r@ == trim_of(s@),
{
    s.trim().to_string()
}

/// The result of running the engine on raw CSS: the printed CSS and, when one
/// was produced, the JSON of its source map.
pub struct EngineOutput {
    pub css: Vec<char>,
    pub map: Option<String>,
}

/// Runs the engine on `raw` for the container-query browser targets; on
/// failure, the engine's message.
pub fn run_css(raw: &Vec<char>) -> (r: Result<EngineOutput, String>)
    ensures
        r is Ok <==> engine_accepts(raw@, CHROME_TARGET, SAFARI_TARGET, FIREFOX_TARGET),
        r matches Ok(o) ==> o.css@ == engine_css(raw@, CHROME_TARGET, SAFARI_TARGET, FIREFOX_TARGET)
            && opt_view(o.map) == engine_map(raw@, CHROME_TARGET, SAFARI_TARGET, FIREFOX_TARGET),
        r matches Err(m) ==> m@ == engine_error(raw@, CHROME_TARGET, SAFARI_TARGET, FIREFOX_TARGET)
            && engine_labelled(m@),
{
    let s = crate::text::string_of(raw);
    match run_engine(s.as_str(), CHROME_TARGET, SAFARI_TARGET, FIREFOX_TARGET) {
        Ok((css, map)) => Ok(EngineOutput { css: crate::text::chars_of(css.as_str()), map }),
        Err(e) => Err(e),
    }
}

/// The text of `s` with its leading and trailing whitespace removed.
pub fn trim_chars(s: &Vec<char>) -> (r: Vec<char>)
    ensures
        r@ == trim_of(s@),
{
    let st = crate::text::string_of(s);
    let t = trim(st.as_str());
    crate::text::chars_of(t.as_str())
}

/// The first offset at or after `i` where `p` occurs in `t`.
pub open spec fn find_from(t: Seq<char>, p: Seq<char>, i: int) -> Option<int>
    decreases t.len() + 1 - i,
{
    if i < 0 || i + p.len() > t.len() {
        None
    } else if t.subrange(i, i + p.len()) == p {
        Some(i)
    } else {
        find_from(t, p, i + 1)
    }
}

/// `t` with the first occurrence of `p` replaced by `r`.
pub open spec fn replace_first(t: Seq<char>, p: Seq<char>, r: Seq<char>) -> Seq<char> {
    match find_from(t, p, 0) {
        Some(i) => t.subrange(0, i) + r + t.subrange(i + p.len(), t.len() as int),
        None => t,
    }
}

fn matches_at(t: &Vec<char>, p: &Vec<char>, i: usize) -> (r: bool)
    requires
        i + p@.len() <= t@.len(),
    ensures
        r == (t@.subrange(i as int, i + p@.len()) == p@),
{
    let mut k: usize = 0;
    let tl = t.len();
    while k < p.len()
        invariant
            tl == t@.len(),
            i + p@.len() <= t@.len(),
            k <= p@.len(),
            forall|j: int| 0 <= j < k ==> t@[i + j] == p@[j],
        decreases p@.len() - k,
    {
        if t[i + k] != p[k] {
            assert(t@.subrange(i as int, i + p@.len())[k as int] != p@[k as int]);
            return false;
        }
        k = k + 1;
    }
    assert(t@.subrange(i as int, i + p@.len()) =~= p@);
    true
}

/// Replaces the first occurrence of the non-empty `p` in `t` by `r`.
pub fn replace_first_exec(t: &Vec<char>, p: &Vec<char>, r: &Vec<char>) -> (out: Vec<char>)
    requires
        p@.len() > 0,
    ensures
        out@ == replace_first(t@, p@, r@),
{
    let mut i: usize = 0;
    let tl = t.len();
    while i < tl && p.len() <= tl - i
        invariant
            tl == t@.len(),
            p@.len() >= 1,
            i <= tl,
            find_from(t@, p@, 0) == find_from(t@, p@, i as int),
        decreases tl - i,
    {
        if matches_at(t, p, i) {
            let mut out: Vec<char> = Vec::new();
            let mut k: usize = 0;
            while k < i
                invariant
                    k <= i,
                    i + p@.len() <= t@.len(),
                    out@ == t@.subrange(0, k as int),
                decreases i - k,
            {
                out.push(t[k]);
                k = k + 1;
                proof {
                    assert(t@.subrange(0, k as int) == t@.subrange(0, k - 1) + seq![t@[k - 1]]);
                }
            }
            crate::text::push_all(&mut out, r);
            let mut k2: usize = i + p.len();
            let ghost mid = out@;
            while k2 < tl
                invariant
                    tl == t@.len(),
                    i + p@.len() <= k2 <= t@.len(),
                    out@ == mid + t@.subrange(i + p@.len(), k2 as int),
                decreases tl - k2,
            {
                out.push(t[k2]);
                k2 = k2 + 1;
                proof {
                    assert(t@.subrange(i + p@.len(), k2 as int) == t@.subrange(i + p@.len(), k2 - 1)
                        + seq![t@[k2 - 1]]);
                }
            }
            return out;
        }
        i = i + 1;
    }
    proof {
        assert(i + p@.len() > t@.len());
    }
    t.clone()
}

} // verus!
