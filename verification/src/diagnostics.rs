//! What the diagnostics page reports of the external tools: only a version token, never
//! a path or other output of the tool.
use vstd::prelude::*;

use crate::text::is_white_space;

verus! {

/// The text that `String::from_utf8_lossy` makes of bytes: invalid sequences become
/// U+FFFD.
pub uninterp spec fn utf8_lossy(bytes: Seq<u8>) -> Seq<char>;

/// Decodes bytes as UTF-8 with `String::from_utf8_lossy`. Bytes that are all ASCII
/// decode to the same characters (they are valid UTF-8); of other bytes only the name
/// is stated.
#[verifier::external_body]
fn decode_lossy(bytes: &[u8]) -> (res: String)
    ensures
        res@ == utf8_lossy(bytes@),
        (forall|i: int| 0 <= i < bytes@.len() ==> bytes@[i] < 128) ==> res@ == bytes@.map_values(
            |b: u8| b as char,
        ),
{
    String::from_utf8_lossy(bytes).into_owned()
}

/// The words of a text, as `str::split_whitespace` gives them: the maximal runs of
/// characters that are not white space.
pub open spec fn words(s: Seq<char>) -> Seq<Seq<char>>
    decreases s.len(),
{
    if s.len() == 0 {
        seq![]
    } else {
        let w = words(s.drop_last());
        let c = s.last();
        if is_white_space(c) {
            w
        } else if s.len() >= 2 && !is_white_space(s[s.len() - 2]) && w.len() > 0 {
            w.update(w.len() - 1, w.last().push(c))
        } else {
            w.push(seq![c])
        }
    }
}

/// A character of a version: an ASCII letter or digit, or one of `.-+_`.
pub open spec fn version_char(c: char) -> bool {
    ('a' <= c && c <= 'z') || ('A' <= c && c <= 'Z') || ('0' <= c && c <= '9') || c == '.' || c
        == '-' || c == '+' || c == '_'
}

/// A token that may be shown as a version: at most 40 characters, starting with a digit,
/// made of version characters only.
pub open spec fn version_token(t: Seq<char>) -> bool {
    &&& t.len() <= 40
    &&& t.len() > 0 && '0' <= t[0] && t[0] <= '9'
    &&& forall|i: int| 0 <= i < t.len() ==> version_char(#[trigger] t[i])
}

/// The first of the first three words that is a version token.
pub open spec fn first_version(ws: Seq<Seq<char>>) -> Option<Seq<char>> {
    if ws.len() > 0 && version_token(ws[0]) {
        Some(ws[0])
    } else if ws.len() > 1 && version_token(ws[1]) {
        Some(ws[1])
    } else if ws.len() > 2 && version_token(ws[2]) {
        Some(ws[2])
    } else {
        None
    }
}

fn split_words(s: &str) -> (res: Vec<Vec<char>>)
    ensures
        crate::text::rows(res@) == words(s@),
{
    let c = crate::text::chars_of(s);
    let mut res: Vec<Vec<char>> = Vec::new();
    let mut k: usize = 0;
    while k < c.len()
        invariant
            k <= c@.len(),
            c@ == s@,
            crate::text::rows(res@) == words(c@.take(k as int)),
            k > 0 && !is_white_space(c@[k - 1]) ==> res@.len() > 0,
        decreases c@.len() - k,
    {
        let ghost t = c@.take(k + 1);
        assert(t.drop_last() =~= c@.take(k as int));
        assert(t.last() == c@[k as int]);
        let ch = c[k];
        if crate::text::is_whitespace_char(ch) {
        } else if k >= 1 && !crate::text::is_whitespace_char(c[k - 1]) && res.len() > 0 {
            assert(t[t.len() - 2] == c@[k - 1]);
            let last = res.len() - 1;
            let mut word = res.remove(last);
            let ghost before = crate::text::rows(res@);
            word.push(ch);
            res.push(word);
            assert(crate::text::rows(res@) =~= words(t));
        } else {
            if k >= 1 {
                assert(t[t.len() - 2] == c@[k - 1]);
            }
            let mut word: Vec<char> = Vec::new();
            word.push(ch);
            let ghost before = crate::text::rows(res@);
            res.push(word);
            assert(crate::text::rows(res@) =~= before.push(seq![ch]));
        }
        k = k + 1;
    }
    assert(c@.take(c@.len() as int) =~= c@);
    res
}

fn is_version_token(t: &Vec<char>) -> (r: bool)
    ensures
        r == version_token(t@),
{
    if t.len() > 40 || t.len() == 0 {
        return false;
    }
    if !('0' <= t[0] && t[0] <= '9') {
        return false;
    }
    let mut i: usize = 0;
    while i < t.len()
        invariant
            i <= t@.len(),
            forall|q: int| 0 <= q < i ==> version_char(#[trigger] t@[q]),
        decreases t@.len() - i,
    {
        let c = t[i];
        if !(('a' <= c && c <= 'z') || ('A' <= c && c <= 'Z') || ('0' <= c && c <= '9') || c
            == '.' || c == '-' || c == '+' || c == '_') {
            assert(!version_char(t@[i as int]));
            return false;
        }
        i = i + 1;
    }
    true
}

/// The version token among the first three words of a text (see `first_version`).
pub fn version_of_text(text: &str) -> (res: Option<String>)
    ensures
        res.deep_view() == first_version(words(text@)),
{
    let ws = split_words(text);
    let mut i: usize = 0;
    while i < 3 && i < ws.len()
        invariant
            i <= 3,
            crate::text::rows(ws@) == words(text@),
            forall|q: int| 0 <= q < i && q < ws@.len() ==> !version_token(#[trigger] ws@[q]@),
        decreases 3 - i,
    {
        if is_version_token(&ws[i]) {
            return Some(crate::text::string_of(ws[i].as_slice()));
        }
        i = i + 1;
    }
    None
}

/// The version that a tool's `--version` output shows, if any (see `first_version`):
/// never an installation path or a message of the tool.
pub fn safe_version(output: &[u8]) -> (res: Option<String>)
    ensures
        res.deep_view() == first_version(words(utf8_lossy(output@))),
{
    let text = decode_lossy(output);
    version_of_text(text.as_str())
}

/// What the diagnostics page says of one external tool.
#[derive(Debug)]
pub struct DependencyDiagnostic {
    pub name: String,
    pub available: bool,
    pub version: Option<String>,
    pub message: String,
}

/// The diagnostics page: the application, the platform, the external tools and the
/// audio output advice.
#[derive(Debug)]
pub struct DiagnosticsSnapshot {
    pub app_version: String,
    pub platform: String,
    pub dependencies: Vec<DependencyDiagnostic>,
    pub audio_output_policy: String,
}

/// The advice on audio output that the page always shows.
pub open spec fn audio_output_policy() -> Seq<char> {
    "Use the system default audio output. Select an output in system settings. Retry Play after reconnecting a device. Sleep and wake keep playback paused."@
}

/// How to install a missing tool: with Homebrew on macOS, from its distribution elsewhere.
pub open spec fn install_message(name: Seq<char>, macos: bool) -> Seq<char> {
    if macos {
        "Install "@ + name + " with Homebrew: brew install "@ + name + ". Then restart G Music."@
    } else {
        "Install "@ + name + " from its official distribution and add it to PATH. Then restart G Music."@
    }
}

/// The page before any tool is checked.
pub fn unavailable(app_version: &str, platform: &str) -> (res: DiagnosticsSnapshot)
    ensures
        res.app_version@ == app_version@,
        res.platform@ == platform@,
        res.dependencies@.len() == 0,
        res.audio_output_policy@ == audio_output_policy(),
{
    DiagnosticsSnapshot {
        app_version: String::from_str(app_version),
        platform: String::from_str(platform),
        dependencies: Vec::new(),
        audio_output_policy: String::from_str(
            "Use the system default audio output. Select an output in system settings. Retry Play after reconnecting a device. Sleep and wake keep playback paused.",
        ),
    }
}

/// What the page says of a tool, given the version token that its `--version` output
/// showed (see `safe_version`): available with that version, or how to install it.
pub fn dependency_diagnostic(name: &str, version: Option<String>, macos: bool) -> (res:
    DependencyDiagnostic)
    ensures
        res.name@ == name@,
        res.available == version is Some,
        res.version.deep_view() == version.deep_view(),
        res.message@ == if version is Some {
            "Available."@
        } else {
            install_message(name@, macos)
        },
{
    let available = version.is_some();
    let message = if available {
        String::from_str("Available.")
    } else if macos {
        let mut m = String::from_str("Install ");
        m.append(name);
        m.append(" with Homebrew: brew install ");
        m.append(name);
        m.append(". Then restart G Music.");
        m
    } else {
        let mut m = String::from_str("Install ");
        m.append(name);
        m.append(" from its official distribution and add it to PATH. Then restart G Music.");
        m
    };
    DependencyDiagnostic { name: String::from_str(name), available, version, message }
}

} // verus!
