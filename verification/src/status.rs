//! The texts the bar shows: workspaces, song, battery, volume and clock,
//! each built from what the system tools printed.

use vstd::prelude::*;
use vstd::string::*;
use vstd::utf8::encode_utf8;

pub use crate::scan::{
    find_json_string_field, parse_i64_from, parse_json_i64_field, parse_json_string,
    parse_workspace_ids,
};
pub use crate::workspaces::{
    format_workspace_label, format_workspaces, HyprMonitorInfo, HyprWorkspaceInfo,
    WorkspaceStatus,
};

use crate::scan::json_string_field;
use crate::text::{
    chars_eq_str, chars_of, contains_seq, contains_str, copy_range, decimal, find_chars,
    find_from, is_white_space, is_white_space_char, last_index_of, lemma_find_from,
    lemma_last_index_of, lower_seq, lowercase_chars, push_decimal, push_two_digits,
    rfind_char, string_from_chars, to_ascii_upper, trim, trim_chars, two_digits, upper_seq,
};
use crate::workspaces::{workspace_labels, WorkspaceLabels};

verus! {

/// A notice from the compositor's event socket.
pub enum StatusEvent {
    WorkspaceDirty,
}

// ---------------------------------------------------------------------------
// Compositor events
// ---------------------------------------------------------------------------

/// The event kinds after which the workspace labels may have changed.
pub open spec fn is_workspace_event_kind(kind: Seq<char>) -> bool {
    ||| kind == "workspace"@
    ||| kind == "workspacev2"@
    ||| kind == "focusedmon"@
    ||| kind == "focusedmonv2"@
    ||| kind == "createworkspace"@
    ||| kind == "createworkspacev2"@
    ||| kind == "destroyworkspace"@
    ||| kind == "destroyworkspacev2"@
    ||| kind == "moveworkspace"@
    ||| kind == "moveworkspacev2"@
    ||| kind == "renameworkspace"@
}

/// An event line is `kind>>data`; it matters when its kind is one of the
/// workspace kinds.
pub open spec fn workspace_event(line: Seq<char>) -> bool {
    match find_from(line, ">>"@, 0) {
        Some(k) => is_workspace_event_kind(line.take(k)),
        None => false,
    }
}

pub fn is_workspace_event(line: &str) -> (r: bool)
    ensures
        r == workspace_event(line@),
{
    let chars = chars_of(line);
    let sep = chars_of(">>");
    let k = match find_chars(chars.as_slice(), sep.as_slice(), 0) {
        Some(k) => k,
        None => return false,
    };
    proof {
        lemma_find_from(chars@, sep@, 0);
    }
    let kind = copy_range(chars.as_slice(), 0, k);
    assert(kind@ =~= line@.take(k as int));
    let kind = kind.as_slice();
    chars_eq_str(kind, "workspace") || chars_eq_str(kind, "workspacev2") || chars_eq_str(
        kind,
        "focusedmon",
    ) || chars_eq_str(kind, "focusedmonv2") || chars_eq_str(kind, "createworkspace")
        || chars_eq_str(kind, "createworkspacev2") || chars_eq_str(kind, "destroyworkspace")
        || chars_eq_str(kind, "destroyworkspacev2") || chars_eq_str(kind, "moveworkspace")
        || chars_eq_str(kind, "moveworkspacev2") || chars_eq_str(kind, "renameworkspace")
}

// ---------------------------------------------------------------------------
// Text clean-up
// ---------------------------------------------------------------------------

/// What happens to one character of a song or device name: the font's
/// letters, digits and punctuation stay, `&` and `_` become spaces, the
/// rest is dropped.
pub open spec fn sanitize_char(c: char) -> Option<char> {
    if ('a' <= c && c <= 'z') || ('A' <= c && c <= 'Z') || ('0' <= c && c <= '9') || c == ' '
        || c == '[' || c == ']' || c == ':' || c == '%' || c == '-' || c == '.' || c == '/' {
        Some(c)
    } else if c == '&' || c == '_' {
        Some(' ')
    } else {
        None
    }
}

pub open spec fn sanitized_chars(s: Seq<char>) -> Seq<char>
    decreases s.len(),
{
    if s.len() == 0 {
        seq![]
    } else {
        let rest = sanitized_chars(s.drop_last());
        match sanitize_char(s.last()) {
            Some(c) => rest.push(c),
            None => rest,
        }
    }
}

/// Reading `s` from the left: the words so far joined by single spaces,
/// and whether white space has been seen since the last word.
pub open spec fn squeeze_state(s: Seq<char>) -> (Seq<char>, bool)
    decreases s.len(),
{
    if s.len() == 0 {
        (seq![], false)
    } else {
        let (out, gap) = squeeze_state(s.drop_last());
        let c = s.last();
        if is_white_space(c) {
            (out, out.len() > 0)
        } else if gap {
            (out.push(' ').push(c), false)
        } else {
            (out.push(c), false)
        }
    }
}

/// The words of `s` joined by single spaces, as
/// `split_whitespace().join(" ")` leaves them.
pub open spec fn squeeze(s: Seq<char>) -> Seq<char> {
    squeeze_state(s).0
}

/// A song or device name reduced to what the bar's font can draw.
pub open spec fn sanitized(s: Seq<char>) -> Seq<char> {
    squeeze(sanitized_chars(s))
}

fn sanitize_one(c: char) -> (r: Option<char>)
    ensures
        r == sanitize_char(c),
{
    if ('a' <= c && c <= 'z') || ('A' <= c && c <= 'Z') || ('0' <= c && c <= '9') || c == ' '
        || c == '[' || c == ']' || c == ':' || c == '%' || c == '-' || c == '.' || c == '/' {
        Some(c)
    } else if c == '&' || c == '_' {
        Some(' ')
    } else {
        None
    }
}

/// The characters a sanitized text may hold: those the bar's font draws.
pub open spec fn bar_text_char(c: char) -> bool {
    ('a' <= c && c <= 'z') || ('A' <= c && c <= 'Z') || ('0' <= c && c <= '9') || c == ' ' || c
        == '[' || c == ']' || c == ':' || c == '%' || c == '-' || c == '.' || c == '/'
}

proof fn lemma_sanitized_chars_drawable(s: Seq<char>)
    ensures
        forall|i: int|
            0 <= i < sanitized_chars(s).len() ==> bar_text_char(#[trigger] sanitized_chars(s)[i]),
    decreases s.len(),
{
    if s.len() > 0 {
        let rest = sanitized_chars(s.drop_last());
        lemma_sanitized_chars_drawable(s.drop_last());
        match sanitize_char(s.last()) {
            Some(c) => {
                assert forall|i: int| 0 <= i < rest.push(c).len() implies bar_text_char(
                    #[trigger] rest.push(c)[i],
                ) by {
                    if i < rest.len() {
                        assert(rest.push(c)[i] == rest[i]);
                    }
                }
            },
            None => {},
        }
    }
}

/// Whether white space in `out` is only single spaces between words.
pub open spec fn single_spaced(out: Seq<char>) -> bool {
    forall|i: int|
        0 <= i < out.len() && is_white_space(#[trigger] out[i]) ==> {
            &&& out[i] == ' '
            &&& 0 < i < out.len() - 1
            &&& !is_white_space(out[i - 1])
            &&& !is_white_space(out[i + 1])
        }
}

proof fn lemma_squeeze_state(s: Seq<char>, keep: spec_fn(char) -> bool)
    requires
        keep(' '),
        forall|i: int| 0 <= i < s.len() ==> keep(#[trigger] s[i]),
    ensures
        ({
            let (out, gap) = squeeze_state(s);
            &&& forall|i: int| 0 <= i < out.len() ==> keep(#[trigger] out[i])
            &&& single_spaced(out)
            &&& out.len() > 0 ==> !is_white_space(out.last())
            &&& gap ==> out.len() > 0
        }),
    decreases s.len(),
{
    if s.len() > 0 {
        let d = s.drop_last();
        assert forall|i: int| 0 <= i < d.len() implies keep(#[trigger] d[i]) by {
            assert(d[i] == s[i]);
        }
        lemma_squeeze_state(d, keep);
        let (out, gap) = squeeze_state(d);
        let c = s.last();
        assert(keep(c)) by {
            assert(s[s.len() - 1] == c);
        }
        if !is_white_space(c) {
            if gap {
                let next = out.push(' ').push(c);
                assert forall|i: int| 0 <= i < next.len() implies keep(#[trigger] next[i]) by {
                    if i < out.len() {
                        assert(next[i] == out[i]);
                    }
                }
                assert forall|i: int|
                    0 <= i < next.len() && is_white_space(#[trigger] next[i]) implies {
                    &&& next[i] == ' '
                    &&& 0 < i < next.len() - 1
                    &&& !is_white_space(next[i - 1])
                    &&& !is_white_space(next[i + 1])
                } by {
                    if i < out.len() {
                        assert(next[i] == out[i]);
                        if i + 1 < out.len() {
                            assert(next[i + 1] == out[i + 1]);
                        }
                        assert(next[i - 1] == out[i - 1]);
                    } else if i == out.len() {
                        assert(next[i - 1] == out[out.len() - 1]);
                    }
                }
            } else {
                let next = out.push(c);
                assert forall|i: int| 0 <= i < next.len() implies keep(#[trigger] next[i]) by {
                    if i < out.len() {
                        assert(next[i] == out[i]);
                    }
                }
                assert forall|i: int|
                    0 <= i < next.len() && is_white_space(#[trigger] next[i]) implies {
                    &&& next[i] == ' '
                    &&& 0 < i < next.len() - 1
                    &&& !is_white_space(next[i - 1])
                    &&& !is_white_space(next[i + 1])
                } by {
                    if i < out.len() {
                        assert(next[i] == out[i]);
                        if i + 1 < out.len() {
                            assert(next[i + 1] == out[i + 1]);
                        }
                        assert(next[i - 1] == out[i - 1]);
                    }
                }
            }
        }
    }
}

/// Sanitizing leaves only characters the bar's font draws, with words
/// separated by single spaces and no space at either end.
pub proof fn law_sanitized_text_is_drawable_and_single_spaced(s: Seq<char>)
    ensures
        forall|i: int| 0 <= i < sanitized(s).len() ==> bar_text_char(#[trigger] sanitized(s)[i]),
        single_spaced(sanitized(s)),
        sanitized(s).len() > 0 ==> !is_white_space(sanitized(s)[0]) && !is_white_space(
            sanitized(s).last(),
        ),
{
    let chars = sanitized_chars(s);
    lemma_sanitized_chars_drawable(s);
    lemma_squeeze_state(chars, |c: char| bar_text_char(c));
    let out = sanitized(s);
    if out.len() > 0 {
        // a space at the front would need a word before it
        assert(is_white_space(out[0]) ==> 0 < 0int);
    }
}

/// The characters of `s` other than white space, in order.
pub open spec fn without_white_space(s: Seq<char>) -> Seq<char>
    decreases s.len(),
{
    if s.len() == 0 {
        seq![]
    } else {
        let rest = without_white_space(s.drop_last());
        if is_white_space(s.last()) {
            rest
        } else {
            rest.push(s.last())
        }
    }
}

/// The characters of `s` that the font draws, other than the space, in
/// order.
pub open spec fn glyph_chars(s: Seq<char>) -> Seq<char>
    decreases s.len(),
{
    if s.len() == 0 {
        seq![]
    } else {
        let rest = glyph_chars(s.drop_last());
        if bar_text_char(s.last()) && s.last() != ' ' {
            rest.push(s.last())
        } else {
            rest
        }
    }
}

proof fn lemma_sanitized_chars_glyphs(s: Seq<char>)
    ensures
        without_white_space(sanitized_chars(s)) == glyph_chars(s),
    decreases s.len(),
{
    if s.len() > 0 {
        lemma_sanitized_chars_glyphs(s.drop_last());
        let rest = sanitized_chars(s.drop_last());
        match sanitize_char(s.last()) {
            Some(c) => {
                assert(rest.push(c).drop_last() =~= rest);
            },
            None => {},
        }
    }
}

proof fn lemma_squeeze_keeps_words(t: Seq<char>)
    ensures
        without_white_space(squeeze_state(t).0) == without_white_space(t),
    decreases t.len(),
{
    if t.len() > 0 {
        let d = t.drop_last();
        lemma_squeeze_keeps_words(d);
        let (out, gap) = squeeze_state(d);
        let c = t.last();
        if !is_white_space(c) {
            if gap {
                let next = out.push(' ').push(c);
                assert(next.drop_last() =~= out.push(' '));
                assert(out.push(' ').drop_last() =~= out);
                assert(is_white_space(out.push(' ').last()));
                assert(without_white_space(out.push(' ')) == without_white_space(out));
                assert(without_white_space(next) == without_white_space(out).push(c));
            } else {
                assert(out.push(c).drop_last() =~= out);
                assert(without_white_space(out.push(c)) == without_white_space(out).push(c));
            }
            assert(squeeze_state(t).0 == if gap {
                out.push(' ').push(c)
            } else {
                out.push(c)
            });
        }
    }
}

proof fn lemma_sanitized_chars_of_drawable(u: Seq<char>)
    requires
        forall|i: int| 0 <= i < u.len() ==> bar_text_char(#[trigger] u[i]),
    ensures
        sanitized_chars(u) == u,
    decreases u.len(),
{
    if u.len() > 0 {
        let d = u.drop_last();
        assert forall|i: int| 0 <= i < d.len() implies bar_text_char(#[trigger] d[i]) by {
            assert(d[i] == u[i]);
        }
        lemma_sanitized_chars_of_drawable(d);
        assert(bar_text_char(u[u.len() - 1]));
        assert(d.push(u.last()) =~= u);
    }
}

proof fn lemma_squeeze_prefix(u: Seq<char>, k: int)
    requires
        single_spaced(u),
        0 <= k <= u.len(),
    ensures
        squeeze_state(u.take(k)) == if k > 0 && is_white_space(u[k - 1]) {
            (u.take(k - 1), true)
        } else {
            (u.take(k), false)
        },
    decreases k,
{
    if k > 0 {
        lemma_squeeze_prefix(u, k - 1);
        assert(u.take(k).drop_last() =~= u.take(k - 1));
        let c = u[k - 1];
        assert(u.take(k).last() == c);
        if is_white_space(c) {
            assert(0 < k - 1 && !is_white_space(u[k - 2]));
        } else if k - 1 > 0 && is_white_space(u[k - 2]) {
            assert(u[k - 2] == ' ');
            assert(u.take(k - 2).push(' ').push(c) =~= u.take(k));
        } else {
            assert(u.take(k - 1).push(c) =~= u.take(k));
        }
    } else {
        assert(u.take(0) =~= Seq::<char>::empty());
    }
}

/// Sanitizing keeps, in order, exactly the characters of the input that the
/// font draws (spaces aside), and sanitizing a sanitized text changes
/// nothing.
pub proof fn law_sanitize_keeps_glyphs_and_is_idempotent(s: Seq<char>)
    ensures
        without_white_space(sanitized(s)) == glyph_chars(s),
        sanitized(sanitized(s)) == sanitized(s),
{
    lemma_sanitized_chars_glyphs(s);
    lemma_squeeze_keeps_words(sanitized_chars(s));
    let u = sanitized(s);
    law_sanitized_text_is_drawable_and_single_spaced(s);
    lemma_sanitized_chars_of_drawable(u);
    lemma_squeeze_prefix(u, u.len() as int);
    assert(u.take(u.len() as int) =~= u);
}

pub fn sanitize_bar_text(input: &str) -> (out: String)
    ensures
        out@ == sanitized(input@),
{
    let chars = chars_of(input);
    let mut kept: Vec<char> = Vec::new();
    let mut i: usize = 0;
    while i < chars.len()
        invariant
            i <= chars@.len(),
            kept@ == sanitized_chars(chars@.take(i as int)),
        decreases chars@.len() - i,
    {
        assert(chars@.take(i + 1).drop_last() =~= chars@.take(i as int));
        match sanitize_one(chars[i]) {
            Some(c) => kept.push(c),
            None => {},
        }
        i += 1;
    }
    assert(chars@.take(chars@.len() as int) =~= chars@);
    let mut out = String::new();
    let mut gap = false;
    let mut j: usize = 0;
    while j < kept.len()
        invariant
            j <= kept@.len(),
            squeeze_state(kept@.take(j as int)) == (out@, gap),
        decreases kept@.len() - j,
    {
        assert(kept@.take(j + 1).drop_last() =~= kept@.take(j as int));
        let c = kept[j];
        if is_white_space_char(c) {
            gap = !out.as_str().is_empty();
        } else {
            if gap {
                out.push(' ');
            }
            out.push(c);
            gap = false;
        }
        j += 1;
    }
    assert(kept@.take(kept@.len() as int) =~= kept@);
    out
}

// ---------------------------------------------------------------------------
// Song
// ---------------------------------------------------------------------------

/// The part of `path` after its last `/`.
pub open spec fn base_name(path: Seq<char>) -> Seq<char> {
    match last_index_of(path, '/') {
        Some(p) => path.skip(p + 1),
        None => path,
    }
}

/// `name` without the part from its last `.` on.
pub open spec fn without_extension(name: Seq<char>) -> Seq<char> {
    match last_index_of(name, '.') {
        Some(p) => name.take(p),
        None => name,
    }
}

/// The title made from the song's file name: its base name without
/// extension.
pub open spec fn title_from_file(raw: Seq<u8>) -> Option<Seq<char>> {
    match json_string_field(raw, "file".spec_bytes()) {
        Some(file) => Some(without_extension(base_name(file))),
        None => None,
    }
}

pub fn song_title_from_file(raw: &str) -> (r: Option<String>)
    ensures
        r matches Some(t) ==> title_from_file(raw.spec_bytes()) == Some(t@),
        r is None ==> title_from_file(raw.spec_bytes()) is None,
{
    let file = find_json_string_field(raw, "file")?;
    let chars = chars_of(file.as_str());
    let name_start = match rfind_char(chars.as_slice(), '/') {
        Some(p) => {
            proof {
                lemma_last_index_of(chars@, '/');
            }
            p + 1
        },
        None => 0,
    };
    let name = copy_range(chars.as_slice(), name_start, chars.len());
    assert(name@ =~= base_name(file@));
    let stem_end = match rfind_char(name.as_slice(), '.') {
        Some(p) => {
            proof {
                lemma_last_index_of(name@, '.');
            }
            p
        },
        None => name.len(),
    };
    let stem = copy_range(name.as_slice(), 0, stem_end);
    assert(stem@ =~= without_extension(base_name(file@)));
    Some(string_from_chars(stem.as_slice()))
}

/// How artist and title are put together.
pub open spec fn song_label(title: Seq<char>, artist: Seq<char>) -> Seq<char> {
    if title.len() == 0 && artist.len() == 0 {
        seq![]
    } else if artist.len() == 0 {
        title
    } else if title.len() == 0 {
        artist
    } else {
        artist + " - "@ + title
    }
}

/// What the middle of the bar shows for the output of `rmpc song`.
pub open spec fn song_text(raw: Seq<char>, raw_bytes: Seq<u8>) -> Seq<char> {
    if trim(raw).len() == 0 {
        seq![]
    } else {
        let title = match json_string_field(raw_bytes, "title".spec_bytes()) {
            Some(t) => t,
            None => match title_from_file(raw_bytes) {
                Some(t) => t,
                None => seq![],
            },
        };
        let artist = match json_string_field(raw_bytes, "artist".spec_bytes()) {
            Some(a) => a,
            None => seq![],
        };
        trim(song_label(sanitized(title), sanitized(artist)))
    }
}

proof fn lemma_trim_keeps_unpadded(s: Seq<char>)
    requires
        s.len() > 0 ==> !is_white_space(s[0]) && !is_white_space(s.last()),
    ensures
        trim(s) == s,
{
    assert(crate::text::trim_start(s) == s);
    assert(crate::text::trim_end(s) == s);
}

/// The artist as the song text shows it: the `artist` tag, sanitized, or
/// nothing.
pub open spec fn shown_artist(raw_bytes: Seq<u8>) -> Seq<char> {
    match json_string_field(raw_bytes, "artist".spec_bytes()) {
        Some(a) => sanitized(a),
        None => seq![],
    }
}

proof fn lemma_song_parts(title: Seq<char>, raw_bytes: Seq<u8>)
    ensures
        ({
            let artist = shown_artist(raw_bytes);
            &&& artist.len() > 0 && sanitized(title).len() > 0 ==> trim(
                song_label(sanitized(title), artist),
            ) == artist + " - "@ + sanitized(title)
            &&& artist.len() == 0 ==> trim(song_label(sanitized(title), artist)) == sanitized(
                title,
            )
        }),
{
    let artist = shown_artist(raw_bytes);
    let t = sanitized(title);
    law_sanitized_text_is_drawable_and_single_spaced(title);
    if artist.len() == 0 {
        lemma_trim_keeps_unpadded(t);
    } else if t.len() > 0 {
        let a = json_string_field(raw_bytes, "artist".spec_bytes())->Some_0;
        law_sanitized_text_is_drawable_and_single_spaced(a);
        let full = artist + " - "@ + t;
        assert(full[0] == artist[0]);
        assert(full.last() == t.last());
        lemma_trim_keeps_unpadded(full);
    }
}

/// A song with a `title` tag shows that tag, sanitized, as its title, after
/// the artist and ` - ` when there is an artist; its file name is not used.
pub proof fn law_song_shows_title_tag(raw: Seq<char>, raw_bytes: Seq<u8>, title: Seq<char>)
    requires
        trim(raw).len() > 0,
        json_string_field(raw_bytes, "title".spec_bytes()) == Some(title),
    ensures
        shown_artist(raw_bytes).len() > 0 && sanitized(title).len() > 0 ==> song_text(
            raw,
            raw_bytes,
        ) == shown_artist(raw_bytes) + " - "@ + sanitized(title),
        shown_artist(raw_bytes).len() == 0 ==> song_text(raw, raw_bytes) == sanitized(title),
{
    lemma_song_parts(title, raw_bytes);
}

/// A song without a `title` tag takes its title from the base name of its
/// file, without the extension.
pub proof fn law_song_title_falls_back_to_file(raw: Seq<char>, raw_bytes: Seq<u8>, file: Seq<char>)
    requires
        trim(raw).len() > 0,
        json_string_field(raw_bytes, "title".spec_bytes()) is None,
        json_string_field(raw_bytes, "file".spec_bytes()) == Some(file),
    ensures
        ({
            let title = sanitized(without_extension(base_name(file)));
            &&& shown_artist(raw_bytes).len() > 0 && title.len() > 0 ==> song_text(raw, raw_bytes)
                == shown_artist(raw_bytes) + " - "@ + title
            &&& shown_artist(raw_bytes).len() == 0 ==> song_text(raw, raw_bytes) == title
        }),
{
    lemma_song_parts(without_extension(base_name(file)), raw_bytes);
}

/// The song text for the output of `rmpc song`.
pub fn gather_song(song_raw: &str) -> (s: String)
    ensures
        s@ == song_text(song_raw@, song_raw.spec_bytes()),
{
    let raw_chars = chars_of(song_raw);
    let trimmed = trim_chars(raw_chars.as_slice());
    if trimmed.len() == 0 {
        return String::new();
    }
    let title = match find_json_string_field(song_raw, "title") {
        Some(t) => t,
        None => match song_title_from_file(song_raw) {
            Some(t) => t,
            None => String::new(),
        },
    };
    let artist = match find_json_string_field(song_raw, "artist") {
        Some(a) => a,
        None => String::new(),
    };
    let title = sanitize_bar_text(title.as_str());
    let artist = sanitize_bar_text(artist.as_str());
    let mut label = String::new();
    if title.as_str().is_empty() && artist.as_str().is_empty() {
    } else if artist.as_str().is_empty() {
        label.append(title.as_str());
    } else if title.as_str().is_empty() {
        label.append(artist.as_str());
    } else {
        label.append(artist.as_str());
        label.append(" - ");
        label.append(title.as_str());
    }
    assert(label@ =~= song_label(title@, artist@));
    let label_chars = chars_of(label.as_str());
    let result = trim_chars(label_chars.as_slice());
    string_from_chars(result.as_slice())
}

// ---------------------------------------------------------------------------
// Volume
// ---------------------------------------------------------------------------

pub open spec fn volume_muted(output: Seq<char>) -> bool {
    contains_seq(output, "[MUTED]"@)
}

/// Whether `wpctl get-volume` reported the sink as muted.
pub fn is_volume_muted(output: &str) -> (r: bool)
    ensures
        r == volume_muted(output@),
{
    let chars = chars_of(output);
    contains_str(chars.as_slice(), "[MUTED]")
}

pub open spec fn battery_charging(status: Seq<char>) -> bool {
    lower_seq(trim(status)) == "charging"@
}

/// Whether the battery's `status` file says it is charging, in any case.
pub fn is_battery_charging(status: &str) -> (r: bool)
    ensures
        r == battery_charging(status@),
{
    let chars = chars_of(status);
    let trimmed = trim_chars(chars.as_slice());
    let lower = lowercase_chars(trimmed.as_slice());
    chars_eq_str(lower.as_slice(), "charging")
}

/// The properties of `wpctl inspect` that name a device, most telling
/// first.
pub open spec fn device_name_keys() -> Seq<Seq<char>> {
    seq!["node.description"@, "device.description"@, "device.nick"@, "node.nick"@]
}

/// What precedes a property's value: `key = "`.
pub open spec fn property_marker(key: Seq<char>) -> Seq<char> {
    key + " = \""@
}

/// The quoted value after the first `marker` in `line`, if it is closed.
pub open spec fn value_after(line: Seq<char>, marker: Seq<char>) -> Option<Seq<char>> {
    match find_from(line, marker, 0) {
        Some(start) => {
            let value = line.skip(start + marker.len());
            match find_from(value, seq!['"'], 0) {
                Some(end) => Some(value.take(end)),
                None => None,
            }
        },
        None => None,
    }
}

/// The value of the first of the `keys` (from `k` on) that `line` holds.
pub open spec fn device_name_in_line_from(line: Seq<char>, keys: Seq<Seq<char>>, k: int) -> Option<
    Seq<char>,
>
    decreases keys.len() - k,
{
    if k < 0 || k >= keys.len() {
        None
    } else {
        match value_after(line, property_marker(keys[k])) {
            Some(v) => Some(v),
            None => device_name_in_line_from(line, keys, k + 1),
        }
    }
}

pub open spec fn device_name_in_line(line: Seq<char>) -> Option<Seq<char>> {
    device_name_in_line_from(trim(line), device_name_keys(), 0)
}

/// The device name in the first line of `output` that holds one.
pub open spec fn device_name(output: Seq<char>) -> Option<Seq<char>>
    decreases output.len(),
{
    match find_from(output, seq!['\n'], 0) {
        None => device_name_in_line(output),
        Some(p) => {
            proof {
                lemma_find_from(output, seq!['\n'], 0);
            }
            match device_name_in_line(output.take(p)) {
                Some(v) => Some(v),
                None => device_name(output.skip(p + 1)),
            }
        },
    }
}

fn value_after_marker(line: &[char], marker: &[char]) -> (r: Option<Vec<char>>)
    ensures
        r matches Some(v) ==> value_after(line@, marker@) == Some(v@),
        r is None ==> value_after(line@, marker@) is None,
{
    let _n = line.len();
    let start = find_chars(line, marker, 0)?;
    proof {
        lemma_find_from(line@, marker@, 0);
    }
    let value = copy_range(line, start + marker.len(), line.len());
    assert(value@ =~= line@.skip(start + marker@.len()));
    let quote: Vec<char> = vec!['"'];
    assert(quote@ =~= seq!['"']);
    let end = find_chars(value.as_slice(), quote.as_slice(), 0)?;
    proof {
        lemma_find_from(value@, quote@, 0);
    }
    let v = copy_range(value.as_slice(), 0, end);
    assert(v@ =~= value@.take(end as int));
    Some(v)
}

fn device_name_of_line(line: &[char]) -> (r: Option<Vec<char>>)
    ensures
        r matches Some(v) ==> device_name_in_line(line@) == Some(v@),
        r is None ==> device_name_in_line(line@) is None,
{
    let trimmed = trim_chars(line);
    let mut k: usize = 0;
    let ghost key_seq = device_name_keys();
    while k < 4
        invariant
            k <= 4,
            key_seq == device_name_keys(),
            device_name_in_line(line@) == device_name_in_line_from(trimmed@, key_seq, k as int),
        decreases 4 - k,
    {
        let mut marker = if k == 0 {
            chars_of("node.description")
        } else if k == 1 {
            chars_of("device.description")
        } else if k == 2 {
            chars_of("device.nick")
        } else {
            chars_of("node.nick")
        };
        let tail = chars_of(" = \"");
        let ghost key = marker@;
        assert(key == key_seq[k as int]);
        let mut t: usize = 0;
        while t < tail.len()
            invariant
                t <= tail@.len(),
                marker@ == key + tail@.take(t as int),
            decreases tail@.len() - t,
        {
            marker.push(tail[t]);
            t += 1;
            assert(marker@ =~= key + tail@.take(t as int));
        }
        assert(tail@.take(tail@.len() as int) =~= tail@);
        assert(marker@ == property_marker(key_seq[k as int]));
        if let Some(v) = value_after_marker(trimmed.as_slice(), marker.as_slice()) {
            return Some(v);
        }
        k += 1;
    }
    None
}

/// The device name that `wpctl inspect` prints for the default sink.
pub fn parse_wpctl_device_name(output: &str) -> (r: Option<String>)
    ensures
        r matches Some(v) ==> device_name(output@) == Some(v@),
        r is None ==> device_name(output@) is None,
{
    let chars = chars_of(output);
    let newline: Vec<char> = vec!['\n'];
    assert(newline@ =~= seq!['\n']);
    let mut pos: usize = 0;
    assert(chars@.skip(0) =~= chars@);
    loop
        invariant
            pos <= chars@.len(),
            newline@ == seq!['\n'],
            device_name(output@) == device_name(chars@.skip(pos as int)),
        decreases chars@.len() - pos,
    {
        let rest = copy_range(chars.as_slice(), pos, chars.len());
        assert(rest@ =~= chars@.skip(pos as int));
        match find_chars(rest.as_slice(), newline.as_slice(), 0) {
            None => {
                return match device_name_of_line(rest.as_slice()) {
                    Some(v) => Some(string_from_chars(v.as_slice())),
                    None => None,
                };
            },
            Some(p) => {
                proof {
                    lemma_find_from(rest@, newline@, 0);
                }
                let line = copy_range(rest.as_slice(), 0, p);
                assert(line@ =~= rest@.take(p as int));
                if let Some(v) = device_name_of_line(line.as_slice()) {
                    return Some(string_from_chars(v.as_slice()));
                }
                assert(rest@.skip(p + 1) =~= chars@.skip(pos + p + 1));
                pos = pos + p + 1;
            },
        }
    }
}

/// A short label for a sound device: `Pods` for AirPods, `SPEAKER` for
/// built-in speakers, else the first eight characters of the name.
pub open spec fn device_label(name: Seq<char>) -> Seq<char> {
    let trimmed = trim(name);
    let lower = lower_seq(trimmed);
    if trimmed.len() == 0 {
        seq![]
    } else if contains_seq(lower, "airpods"@) {
        "Pods"@
    } else if contains_seq(lower, "speaker"@) || contains_seq(lower, "built-in"@) || contains_seq(
        lower,
        "built in"@,
    ) || contains_seq(lower, "analog stereo"@) {
        "SPEAKER"@
    } else if trimmed.len() <= 8 {
        trimmed
    } else {
        trimmed.take(8)
    }
}

pub fn format_volume_device_label(name: &str) -> (s: String)
    ensures
        s@ == device_label(name@),
{
    let chars = chars_of(name);
    let trimmed = trim_chars(chars.as_slice());
    if trimmed.len() == 0 {
        return String::new();
    }
    let lower = lowercase_chars(trimmed.as_slice());
    if contains_str(lower.as_slice(), "airpods") {
        return "Pods".to_owned();
    }
    if contains_str(lower.as_slice(), "speaker") || contains_str(lower.as_slice(), "built-in")
        || contains_str(lower.as_slice(), "built in") || contains_str(
        lower.as_slice(),
        "analog stereo",
    ) {
        return "SPEAKER".to_owned();
    }
    let n = if trimmed.len() <= 8 {
        trimmed.len()
    } else {
        8
    };
    let head = copy_range(trimmed.as_slice(), 0, n);
    assert(trimmed@.len() <= 8 ==> head@ =~= trimmed@);
    string_from_chars(head.as_slice())
}

/// The device part of the detailed volume text.
pub open spec fn device_text(inspect: Seq<char>) -> Seq<char> {
    match device_name(inspect) {
        Some(name) => {
            let label = device_label(sanitized(name));
            if label.len() == 0 {
                "--"@
            } else {
                label
            }
        },
        None => "--"@,
    }
}

/// The detailed volume text: which device plays, and whether it is muted.
pub open spec fn volume_device_text(volume_raw: Seq<char>, inspect: Seq<char>) -> Seq<char> {
    if volume_muted(volume_raw) {
        "VOL MUT "@ + device_text(inspect)
    } else {
        "VOL "@ + device_text(inspect)
    }
}

fn format_volume_device(volume_raw: &str, inspect_raw: &str) -> (s: String)
    ensures
        s@ == volume_device_text(volume_raw@, inspect_raw@),
{
    let label = match parse_wpctl_device_name(inspect_raw) {
        Some(name) => {
            let clean = sanitize_bar_text(name.as_str());
            let l = format_volume_device_label(clean.as_str());
            if l.as_str().is_empty() {
                "--".to_owned()
            } else {
                l
            }
        },
        None => "--".to_owned(),
    };
    assert(label@ == device_text(inspect_raw@));
    let mut s = if is_volume_muted(volume_raw) {
        "VOL MUT ".to_owned()
    } else {
        "VOL ".to_owned()
    };
    s.append(label.as_str());
    s
}

/// The plain volume text: the level in percent, or `--` when it could not
/// be read, and whether it is muted.
pub open spec fn volume_level_text(volume_raw: Seq<char>, percent: Option<i32>) -> Seq<char> {
    let value = match percent {
        Some(p) => decimal(p as int),
        None => "--"@,
    };
    if volume_muted(volume_raw) {
        "VOL MUT "@ + value + "%"@
    } else {
        "VOL "@ + value + "%"@
    }
}

/// What `wpctl` reported about the default sink.
pub struct VolumeReadings {
    /// The output of `wpctl get-volume`.
    pub volume_raw: String,
    /// The level in percent that output names, where it names one.
    pub percent: Option<i32>,
    /// The output of `wpctl inspect`; read in detail mode only.
    pub inspect_raw: String,
}

/// The volume text: the device in detail mode, else the level.
pub open spec fn volume_text(detail_mode: bool, readings: VolumeReadings) -> Seq<char> {
    if detail_mode {
        volume_device_text(readings.volume_raw@, readings.inspect_raw@)
    } else {
        volume_level_text(readings.volume_raw@, readings.percent)
    }
}

pub fn gather_volume(detail_mode: bool, readings: &VolumeReadings) -> (s: String)
    ensures
        s@ == volume_text(detail_mode, *readings),
{
    if detail_mode {
        return format_volume_device(readings.volume_raw.as_str(), readings.inspect_raw.as_str());
    }
    let mut s = if is_volume_muted(readings.volume_raw.as_str()) {
        "VOL MUT ".to_owned()
    } else {
        "VOL ".to_owned()
    };
    match readings.percent {
        Some(p) => push_decimal(&mut s, p as i64),
        None => s.append("--"),
    }
    s.append("%");
    s
}

/// `output` holds the tag `[MUTED]` somewhere.
pub open spec fn has_mute_tag(output: Seq<char>) -> bool {
    exists|i: int|
        0 <= i && i + "[MUTED]"@.len() <= output.len() && #[trigger] output.subrange(
            i,
            i + "[MUTED]"@.len(),
        ) == "[MUTED]"@
}

proof fn lemma_volume_muted_is_tag(output: Seq<char>)
    ensures
        volume_muted(output) == has_mute_tag(output),
{
    let tag = "[MUTED]"@;
    lemma_find_from(output, tag, 0);
    if has_mute_tag(output) {
        let i = choose|i: int|
            0 <= i && i + tag.len() <= output.len() && #[trigger] output.subrange(i, i + tag.len())
                == tag;
        assert(crate::text::occurs_at(output, tag, i));
    }
    if let Some(p) = find_from(output, tag, 0) {
        assert(output.subrange(p, p + tag.len()) == tag);
    }
}

/// Whether the sink is muted is read from the `wpctl get-volume` output
/// alone, in both modes: two readings that differ only there give the same
/// text, but for `MUT ` after `VOL ` where that output holds `[MUTED]`.
/// The device in detail mode never decides it.
pub proof fn law_mute_is_read_from_get_volume(
    detail_mode: bool,
    muted: VolumeReadings,
    unmuted: VolumeReadings,
)
    requires
        has_mute_tag(muted.volume_raw@),
        !has_mute_tag(unmuted.volume_raw@),
        muted.inspect_raw@ == unmuted.inspect_raw@,
        muted.percent == unmuted.percent,
    ensures
        volume_text(detail_mode, unmuted).take(4) == "VOL "@,
        volume_text(detail_mode, muted) == "VOL MUT "@ + volume_text(detail_mode, unmuted).skip(4),
{
    lemma_volume_muted_is_tag(muted.volume_raw@);
    lemma_volume_muted_is_tag(unmuted.volume_raw@);
    reveal_strlit("VOL ");
    reveal_strlit("VOL MUT ");
    let rest = if detail_mode {
        device_text(unmuted.inspect_raw@)
    } else {
        let value = match unmuted.percent {
            Some(p) => decimal(p as int),
            None => "--"@,
        };
        value + "%"@
    };
    if detail_mode {
        assert(volume_text(detail_mode, unmuted) == "VOL "@ + rest);
    } else {
        assert(volume_text(detail_mode, unmuted) =~= "VOL "@ + rest);
        assert(volume_text(detail_mode, muted) =~= "VOL MUT "@ + rest);
    }
    assert(("VOL "@ + rest).take(4) =~= "VOL "@);
    assert(("VOL "@ + rest).skip(4) =~= rest);
}

// ---------------------------------------------------------------------------
// Battery
// ---------------------------------------------------------------------------

/// What the first battery in `/sys/class/power_supply` reports.
pub struct BatteryState {
    /// The charge in percent, as the `capacity` file holds it.
    pub capacity: String,
    pub charging: bool,
    /// Minutes until full (when charging) or empty, where the energy and
    /// power readings allow an estimate.
    pub remaining_minutes: Option<i64>,
}

pub open spec fn battery_fallback_text(charging: bool) -> Seq<char> {
    if charging {
        "BAT CH --:--"@
    } else {
        "BAT --:--"@
    }
}

pub fn battery_time_fallback_label(charging: bool) -> (s: String)
    ensures
        s@ == battery_fallback_text(charging),
{
    if charging {
        "BAT CH --:--".to_owned()
    } else {
        "BAT --:--".to_owned()
    }
}

/// `hh:mm` for a number of minutes; a negative estimate shows as `00:00`.
pub open spec fn clock_text(minutes: int) -> Seq<char> {
    let (hours, mins) = if minutes >= 0 {
        (minutes / 60, minutes % 60)
    } else {
        (0, 0)
    };
    two_digits(hours) + seq![':'] + two_digits(mins)
}

/// The detailed battery text: the time left.
pub open spec fn battery_time_text(state: Option<BatteryState>) -> Seq<char> {
    match state {
        None => "BAT --:--"@,
        Some(s) => match s.remaining_minutes {
            None => battery_fallback_text(s.charging),
            Some(m) => if s.charging {
                "BAT CH "@ + clock_text(m as int)
            } else {
                "BAT "@ + clock_text(m as int)
            },
        },
    }
}

pub fn format_battery_time(state: Option<&BatteryState>) -> (s: String)
    ensures
        s@ == battery_time_text(
            match state {
                Some(b) => Some(*b),
                None => None,
            },
        ),
{
    let state = match state {
        Some(st) => st,
        None => return "BAT --:--".to_owned(),
    };
    let minutes = match state.remaining_minutes {
        Some(m) => m,
        None => return battery_time_fallback_label(state.charging),
    };
    let (hours, mins) = if minutes >= 0 {
        (minutes / 60, minutes % 60)
    } else {
        (0, 0)
    };
    let mut s = if state.charging {
        "BAT CH ".to_owned()
    } else {
        "BAT ".to_owned()
    };
    push_two_digits(&mut s, hours);
    s.push(':');
    push_two_digits(&mut s, mins);
    assert(s@ =~= (if state.charging {
        "BAT CH "@
    } else {
        "BAT "@
    }) + clock_text(minutes as int));
    s
}

/// The battery text: the time left in detail mode, else the charge.
pub open spec fn battery_text(detail_mode: bool, state: Option<BatteryState>) -> Seq<char> {
    if detail_mode {
        battery_time_text(state)
    } else {
        match state {
            Some(s) => if s.charging {
                "BAT CH "@ + s.capacity@ + "%"@
            } else {
                "BAT "@ + s.capacity@ + "%"@
            },
            None => "BAT --%"@,
        }
    }
}

pub fn gather_battery(detail_mode: bool, state: Option<&BatteryState>) -> (s: String)
    ensures
        s@ == battery_text(
            detail_mode,
            match state {
                Some(b) => Some(*b),
                None => None,
            },
        ),
{
    if detail_mode {
        return format_battery_time(state);
    }
    match state {
        Some(st) => {
            let mut s = if st.charging {
                "BAT CH ".to_owned()
            } else {
                "BAT ".to_owned()
            };
            s.append(st.capacity.as_str());
            s.append("%");
            s
        },
        None => "BAT --%".to_owned(),
    }
}

// ---------------------------------------------------------------------------
// Clock
// ---------------------------------------------------------------------------

/// The clock text: the local time (`%a %d %b %H:%M`) in capitals, or a
/// placeholder when it could not be had.
pub open spec fn datetime_text(local_time: Option<Seq<char>>) -> Seq<char> {
    match local_time {
        Some(t) => upper_seq(t),
        None => "-- -- --- --:--"@,
    }
}

pub fn gather_datetime(local_time: Option<&str>) -> (s: String)
    ensures
        s@ == datetime_text(
            match local_time {
                Some(t) => Some(t@),
                None => None,
            },
        ),
{
    match local_time {
        Some(t) => {
            let chars = chars_of(t);
            let mut s = String::new();
            let mut i: usize = 0;
            while i < chars.len()
                invariant
                    i <= chars@.len(),
                    s@ == upper_seq(chars@.take(i as int)),
                decreases chars@.len() - i,
            {
                s.push(to_ascii_upper(chars[i]));
                i += 1;
                assert(s@ =~= upper_seq(chars@.take(i as int)));
            }
            assert(chars@.take(chars@.len() as int) =~= chars@);
            s
        },
        None => "-- -- --- --:--".to_owned(),
    }
}

// ---------------------------------------------------------------------------
// Everything at once
// ---------------------------------------------------------------------------

/// What `hyprctl` reported about workspaces and monitors.
pub struct WorkspaceReadings {
    /// The output of `hyprctl -j activeworkspace`.
    pub active_raw: String,
    /// The output of `hyprctl -j workspaces`.
    pub list_raw: String,
    /// The monitors in the output of `hyprctl -j monitors`.
    pub monitors: Vec<HyprMonitorInfo>,
    /// The workspaces in `list_raw` that name their monitor.
    pub workspaces: Vec<HyprWorkspaceInfo>,
}

/// Everything the status texts are made from.
pub struct StatusReadings {
    pub workspaces: WorkspaceReadings,
    /// The output of `rmpc song`.
    pub song_raw: String,
    pub battery: Option<BatteryState>,
    pub volume: VolumeReadings,
    /// The local time as `%a %d %b %H:%M`, where it could be had.
    pub local_time: Option<String>,
}

pub open spec fn workspace_readings_labels(r: WorkspaceReadings) -> WorkspaceLabels {
    workspace_labels(
        encode_utf8(r.active_raw@),
        encode_utf8(r.list_raw@),
        r.monitors@,
        r.workspaces@,
    )
}

/// The texts of the bar.
pub struct BarStatus {
    pub workspaces: WorkspaceStatus,
    pub song: String,
    pub battery: String,
    pub volume: String,
    pub datetime: String,
}

impl BarStatus {
    /// All texts, from one reading of each source.
    pub fn gather(detail_mode: bool, readings: &StatusReadings) -> (status: BarStatus)
        ensures
            status.workspaces@ == workspace_readings_labels(readings.workspaces),
            status.song@ == song_text(readings.song_raw@, encode_utf8(readings.song_raw@)),
            status.battery@ == battery_text(detail_mode, readings.battery),
            status.volume@ == volume_text(detail_mode, readings.volume),
            status.datetime@ == datetime_text(
                match readings.local_time {
                    Some(t) => Some(t@),
                    None => None,
                },
            ),
    {
        let battery = match &readings.battery {
            Some(b) => Some(b),
            None => None,
        };
        let local_time = match &readings.local_time {
            Some(t) => Some(t.as_str()),
            None => None,
        };
        BarStatus {
            workspaces: Self::gather_workspaces(&readings.workspaces),
            song: gather_song(readings.song_raw.as_str()),
            battery: gather_battery(detail_mode, battery),
            volume: gather_volume(detail_mode, &readings.volume),
            datetime: gather_datetime(local_time),
        }
    }

    /// The workspace labels, from one reading of `hyprctl`.
    pub fn gather_workspaces(readings: &WorkspaceReadings) -> (status: WorkspaceStatus)
        ensures
            status@ == workspace_readings_labels(*readings),
    {
        format_workspaces(
            readings.active_raw.as_str(),
            readings.list_raw.as_str(),
            readings.monitors.as_slice(),
            readings.workspaces.as_slice(),
        )
    }
}

} // verus!
