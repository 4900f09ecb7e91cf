use vstd::prelude::*;
use crate::text::push_char;

verus! {

/// Why a sticker-pack request is refused.
#[derive(Clone, Copy, Debug, PartialEq, Eq, Structural)]
pub enum TelegramError {
    /// A link that is not `t.me/addstickers/...` or `t.me/addemoji/...`.
    NotAPackLink,
    /// A pack link with no name, or with more than one path segment after it.
    NotOneSetName,
    /// A name that is empty, longer than 64 characters, or holds a character
    /// other than ASCII letters, digits and `_`.
    InvalidSetName,
    /// A download with zero worker threads.
    NoThreads,
    /// A sticker set without stickers.
    EmptyStickerSet,
    /// No bot token was given and none is stored.
    NoBotToken,
}

impl TelegramError {
    pub open spec fn spec_message(self) -> Seq<char> {
        match self {
            TelegramError::NotAPackLink => "Telegram link must use t.me/addstickers/<name> or t.me/addemoji/<name>"@,
            TelegramError::NotOneSetName => "Telegram link must contain exactly one sticker-set name"@,
            TelegramError::InvalidSetName => "invalid Telegram sticker-set name"@,
            TelegramError::NoThreads => "--threads must be at least 1"@,
            TelegramError::EmptyStickerSet => "Telegram sticker set is empty"@,
            TelegramError::NoBotToken => "no Telegram bot token: store one in the system credential store or pass --token"@,
        }
    }

    /// The message shown to the user.
    pub fn message(self) -> (r: String)
        ensures
            r@ == self.spec_message(),
    {
        match self {
            TelegramError::NotAPackLink => String::from_str(
                "Telegram link must use t.me/addstickers/<name> or t.me/addemoji/<name>",
            ),
            TelegramError::NotOneSetName => String::from_str(
                "Telegram link must contain exactly one sticker-set name",
            ),
            TelegramError::InvalidSetName => String::from_str("invalid Telegram sticker-set name"),
            TelegramError::NoThreads => String::from_str("--threads must be at least 1"),
            TelegramError::EmptyStickerSet => String::from_str("Telegram sticker set is empty"),
            TelegramError::NoBotToken => String::from_str(
                "no Telegram bot token: store one in the system credential store or pass --token",
            ),
        }
    }
}

/// The Unicode `White_Space` characters, which `str::trim` removes.
pub open spec fn is_white_space(c: char) -> bool {
    ||| '\u{9}' <= c <= '\u{d}'
    ||| c == ' '
    ||| c == '\u{85}'
    ||| c == '\u{a0}'
    ||| c == '\u{1680}'
    ||| '\u{2000}' <= c <= '\u{200a}'
    ||| c == '\u{2028}'
    ||| c == '\u{2029}'
    ||| c == '\u{202f}'
    ||| c == '\u{205f}'
    ||| c == '\u{3000}'
}

fn white_space(c: char) -> (r: bool)
    ensures
        r == is_white_space(c),
{
    ('\u{9}' <= c && c <= '\u{d}') || c == ' ' || c == '\u{85}' || c == '\u{a0}' || c == '\u{1680}'
        || ('\u{2000}' <= c && c <= '\u{200a}') || c == '\u{2028}' || c == '\u{2029}' || c == '\u{202f}'
        || c == '\u{205f}' || c == '\u{3000}'
}

/// `s` without leading white space.
pub open spec fn trim_start(s: Seq<char>) -> Seq<char>
    decreases s.len(),
{
    if s.len() > 0 && is_white_space(s[0]) {
        trim_start(s.drop_first())
    } else {
        s
    }
}

/// `s` without trailing white space.
pub open spec fn trim_end(s: Seq<char>) -> Seq<char>
    decreases s.len(),
{
    if s.len() > 0 && is_white_space(s.last()) {
        trim_end(s.drop_last())
    } else {
        s
    }
}

/// `s` without leading and trailing white space (`str::trim`).
pub open spec fn spec_trim(s: Seq<char>) -> Seq<char> {
    trim_end(trim_start(s))
}

/// The characters of `s`, in order.
pub fn chars_of(s: &str) -> (r: Vec<char>)
    ensures
        r@ == s@,
{
    let mut out: Vec<char> = Vec::new();
    for c in it: s.chars()
        invariant
            out@ == it.seq().take(it.index() as int),
    {
        out.push(c);
    }
    out
}

/// Bounds of the trimmed part of `v`.
fn trim_bounds(v: &Vec<char>) -> (r: (usize, usize))
    ensures
        r.0 <= r.1 <= v@.len(),
        spec_trim(v@) == v@.subrange(r.0 as int, r.1 as int),
{
    let n = v.len();
    let mut i: usize = 0;
    assert(v@.skip(0) =~= v@);
    while i < n && white_space(v[i])
        invariant
            n == v@.len(),
            i <= n,
            trim_start(v@) == trim_start(v@.skip(i as int)),
        decreases n - i,
    {
        assert(v@.skip(i as int).drop_first() =~= v@.skip(i + 1));
        i = i + 1;
    }
    assert(trim_start(v@) == v@.skip(i as int)) by {
        if i == n {
            assert(v@.skip(i as int) =~= Seq::<char>::empty());
        }
    }
    assert(v@.skip(i as int) =~= v@.subrange(i as int, n as int));
    let mut j: usize = n;
    while j > i && white_space(v[j - 1])
        invariant
            n == v@.len(),
            i <= j <= n,
            trim_end(v@.subrange(i as int, n as int)) == trim_end(v@.subrange(i as int, j as int)),
        decreases j - i,
    {
        assert(v@.subrange(i as int, j as int).drop_last() =~= v@.subrange(i as int, j - 1));
        j = j - 1;
    }
    (i, j)
}


/// The characters `v[start..end]`.
fn copy_range(v: &Vec<char>, start: usize, end: usize) -> (r: Vec<char>)
    requires
        start <= end <= v@.len(),
    ensures
        r@ == v@.subrange(start as int, end as int),
{
    let mut out: Vec<char> = Vec::new();
    let mut k = start;
    while k < end
        invariant
            start <= k <= end <= v@.len(),
            out@ == v@.subrange(start as int, k as int),
        decreases end - k,
    {
        out.push(v[k]);
        assert(out@ =~= v@.subrange(start as int, k + 1));
        k = k + 1;
    }
    out
}

/// `://` starts at position `i` of `s`.
pub open spec fn scheme_separator_at(s: Seq<char>, i: int) -> bool {
    0 <= i && i + 3 <= s.len() && s[i] == ':' && s[i + 1] == '/' && s[i + 2] == '/'
}

/// The first position at or after `i` where `://` starts.
pub open spec fn find_scheme_separator(s: Seq<char>, i: nat) -> Option<nat>
    decreases s.len() - i,
{
    if i + 3 > s.len() {
        None
    } else if scheme_separator_at(s, i as int) {
        Some(i)
    } else {
        find_scheme_separator(s, i + 1)
    }
}

fn scheme_separator(t: &Vec<char>) -> (r: Option<usize>)
    ensures
        r matches Some(k) ==> find_scheme_separator(t@, 0) == Some(k as nat) && k + 3 <= t@.len(),
        r is None ==> find_scheme_separator(t@, 0) is None,
{
    let n = t.len();
    let mut i: usize = 0;
    while i < n && n - i >= 3
        invariant
            n == t@.len(),
            i <= n,
            find_scheme_separator(t@, 0) == find_scheme_separator(t@, i as nat),
        decreases n - i,
    {
        if t[i] == ':' && t[i + 1] == '/' && t[i + 2] == '/' {
            return Some(i);
        }
        i = i + 1;
    }
    None
}

/// The position of the first `?` or `#` at or after `i`, or the length.
pub open spec fn query_start(s: Seq<char>, i: nat) -> nat
    decreases s.len() - i,
{
    if i >= s.len() {
        s.len()
    } else if s[i as int] == '?' || s[i as int] == '#' {
        i
    } else {
        query_start(s, i + 1)
    }
}

fn find_query_start(s: &Vec<char>) -> (r: usize)
    ensures
        r == query_start(s@, 0),
        r <= s@.len(),
{
    let n = s.len();
    let mut i: usize = 0;
    while i < n
        invariant
            n == s@.len(),
            i <= n,
            query_start(s@, 0) == query_start(s@, i as nat),
        decreases n - i,
    {
        if s[i] == '?' || s[i] == '#' {
            return i;
        }
        i = i + 1;
    }
    i
}

/// Splits `s` at `/` and keeps the non-empty pieces, appended to `done`
/// after the piece `current` that is being read.
pub open spec fn split_segments(s: Seq<char>, done: Seq<Seq<char>>, current: Seq<char>) -> Seq<Seq<char>>
    decreases s.len(),
{
    if s.len() == 0 {
        if current.len() == 0 { done } else { done.push(current) }
    } else if s[0] == '/' {
        split_segments(s.drop_first(), if current.len() == 0 { done } else { done.push(current) }, Seq::empty())
    } else {
        split_segments(s.drop_first(), done, current.push(s[0]))
    }
}

/// The non-empty `/`-separated segments of a path.
pub open spec fn path_segments(s: Seq<char>) -> Seq<Seq<char>> {
    split_segments(s, Seq::empty(), Seq::empty())
}

pub open spec fn char_vec_views(v: Seq<Vec<char>>) -> Seq<Seq<char>> {
    v.map_values(|x: Vec<char>| x@)
}

fn segments(path: &Vec<char>) -> (r: Vec<Vec<char>>)
    ensures
        char_vec_views(r@) == path_segments(path@),
{
    let n = path.len();
    let mut done: Vec<Vec<char>> = Vec::new();
    let mut current: Vec<char> = Vec::new();
    let mut k: usize = 0;
    assert(path@.skip(0) =~= path@);
    assert(char_vec_views(done@) =~= Seq::<Seq<char>>::empty());
    while k < n
        invariant
            n == path@.len(),
            k <= n,
            split_segments(path@.skip(k as int), char_vec_views(done@), current@) == path_segments(path@),
        decreases n - k,
    {
        let ghost rest = path@.skip(k as int);
        assert(rest.drop_first() =~= path@.skip(k + 1));
        assert(rest[0] == path@[k as int]);
        let c = path[k];
        if c == '/' {
            if current.len() > 0 {
                let ghost before = char_vec_views(done@);
                let finished = current;
                let ghost fv = finished@;
                done.push(finished);
                assert(char_vec_views(done@) =~= before.push(fv));
                current = Vec::new();
            }
            assert(current@ =~= Seq::<char>::empty());
        } else {
            current.push(c);
        }
        k = k + 1;
    }
    assert(path@.skip(n as int) =~= Seq::<char>::empty());
    if current.len() > 0 {
        let ghost before = char_vec_views(done@);
        let ghost fv = current@;
        done.push(current);
        assert(char_vec_views(done@) =~= before.push(fv));
    }
    done
}

/// ASCII upper-case letters mapped to lower case; other characters kept.
pub open spec fn ascii_lower(c: char) -> char {
    if 'A' <= c <= 'Z' { ((c as int) + 32) as char } else { c }
}

/// `str::to_ascii_lowercase`.
pub open spec fn ascii_lower_seq(s: Seq<char>) -> Seq<char> {
    s.map_values(|c: char| ascii_lower(c))
}

/// Whether `s`, lower-cased in ASCII, equals `target`.
fn lower_equals(s: &Vec<char>, target: &[char]) -> (r: bool)
    ensures
        r == (ascii_lower_seq(s@) == target@),
{
    if s.len() != target.len() {
        assert(ascii_lower_seq(s@).len() != target@.len());
        return false;
    }
    let mut i: usize = 0;
    while i < s.len()
        invariant
            s@.len() == target@.len(),
            i <= s@.len(),
            forall|k: int| 0 <= k < i ==> ascii_lower(s@[k]) == target@[k],
        decreases s.len() - i,
    {
        let c = s[i];
        let lower = if 'A' <= c && c <= 'Z' { ((c as u8) + 32) as char } else { c };
        assert(lower == ascii_lower(c));
        if lower != target[i] {
            assert(ascii_lower_seq(s@)[i as int] != target@[i as int]);
            return false;
        }
        i = i + 1;
    }
    assert(ascii_lower_seq(s@) =~= target@);
    true
}


/// Segment `k` of a path, or nothing when there are fewer segments.
pub open spec fn segment_or_empty(parts: Seq<Seq<char>>, k: int) -> Seq<char> {
    if 0 <= k < parts.len() { parts[k] } else { Seq::empty() }
}

/// Characters allowed in a sticker-set name: ASCII letters, digits and `_`.
pub open spec fn is_set_name_char(c: char) -> bool {
    ||| 'a' <= c <= 'z'
    ||| 'A' <= c <= 'Z'
    ||| '0' <= c <= '9'
    ||| c == '_'
}

/// A sticker-set name: 1 to 64 characters, each an ASCII letter, digit or `_`.
pub open spec fn spec_valid_set_name(s: Seq<char>) -> bool {
    &&& 0 < s.len() <= 64
    &&& forall|i: int| 0 <= i < s.len() ==> #[trigger] is_set_name_char(s[i])
}

/// The sticker-set name that a trimmed link or name `t` designates, before
/// the name itself is checked. A text without `://` is taken as the name; a
/// link must point at `t.me` or `www.t.me` (in any ASCII case), under
/// `addstickers` or `addemoji` (in any ASCII case), with exactly one further
/// non-empty path segment, ignoring the query and fragment.
pub open spec fn spec_link_candidate(t: Seq<char>) -> Result<Seq<char>, TelegramError> {
    match find_scheme_separator(t, 0) {
        None => Ok(t),
        Some(k) => {
            let rest = t.skip(k + 3int);
            let parts = path_segments(rest.take(query_start(rest, 0) as int));
            let host = ascii_lower_seq(segment_or_empty(parts, 0));
            let kind = ascii_lower_seq(segment_or_empty(parts, 1));
            let name = segment_or_empty(parts, 2);
            if (host != seq!['t', '.', 'm', 'e'] && host != seq!['w', 'w', 'w', '.', 't', '.', 'm', 'e'])
                || (kind != seq!['a', 'd', 'd', 's', 't', 'i', 'c', 'k', 'e', 'r', 's']
                && kind != seq!['a', 'd', 'd', 'e', 'm', 'o', 'j', 'i']) {
                Err(TelegramError::NotAPackLink)
            } else if parts.len() > 3 || name.len() == 0 {
                Err(TelegramError::NotOneSetName)
            } else {
                Ok(name)
            }
        },
    }
}

/// The sticker-set name designated by a `t.me/addstickers/<name>` or
/// `t.me/addemoji/<name>` link, or by a bare name; surrounding white space
/// is ignored.
pub open spec fn spec_parse_sticker_set_name(link_or_name: Seq<char>) -> Result<Seq<char>, TelegramError> {
    match spec_link_candidate(spec_trim(link_or_name)) {
        Err(e) => Err(e),
        Ok(candidate) => if spec_valid_set_name(candidate) {
            Ok(candidate)
        } else {
            Err(TelegramError::InvalidSetName)
        },
    }
}

/// The characters of a string result.
pub open spec fn string_result_view<E>(r: Result<String, E>) -> Result<Seq<char>, E> {
    match r {
        Ok(s) => Ok(s@),
        Err(e) => Err(e),
    }
}

fn valid_set_name(s: &Vec<char>) -> (r: bool)
    ensures
        r == spec_valid_set_name(s@),
{
    if s.len() == 0 || s.len() > 64 {
        return false;
    }
    let mut i: usize = 0;
    while i < s.len()
        invariant
            i <= s@.len(),
            forall|k: int| 0 <= k < i ==> #[trigger] is_set_name_char(s@[k]),
        decreases s.len() - i,
    {
        let c = s[i];
        if !(('a' <= c && c <= 'z') || ('A' <= c && c <= 'Z') || ('0' <= c && c <= '9') || c == '_') {
            assert(!is_set_name_char(s@[i as int]));
            return false;
        }
        i = i + 1;
    }
    true
}

/// A string holding the characters of `v`.
pub(crate) fn string_from_chars(v: &Vec<char>) -> (r: String)
    ensures
        r@ == v@,
{
    let mut out = String::new();
    let mut i: usize = 0;
    while i < v.len()
        invariant
            i <= v@.len(),
            out@ == v@.take(i as int),
        decreases v.len() - i,
    {
        push_char(&mut out, v[i]);
        assert(out@ =~= v@.take(i + 1));
        i = i + 1;
    }
    assert(v@.take(v@.len() as int) =~= v@);
    out
}

fn link_candidate(t: &Vec<char>) -> (r: Result<Vec<char>, TelegramError>)
    ensures
        match r {
            Ok(c) => spec_link_candidate(t@) == Ok::<Seq<char>, TelegramError>(c@),
            Err(e) => spec_link_candidate(t@) == Err::<Seq<char>, TelegramError>(e),
        },
{
    let n = t.len();
    match scheme_separator(t) {
        None => {
            let whole = copy_range(t, 0, n);
            assert(whole@ =~= t@);
            Ok(whole)
        },
        Some(k) => {
            assert(k + 3 <= n);
            let rest = copy_range(t, k + 3, n);
            assert(rest@ =~= t@.skip(k + 3));
            let end = find_query_start(&rest);
            let path = copy_range(&rest, 0, end);
            assert(path@ =~= rest@.take(end as int));
            let parts = segments(&path);
            let empty: Vec<char> = Vec::new();
            let host = if parts.len() > 0 { &parts[0] } else { &empty };
            let kind = if parts.len() > 1 { &parts[1] } else { &empty };
            let name = if parts.len() > 2 { &parts[2] } else { &empty };
            let ghost views = char_vec_views(parts@);
            assert(host@ == segment_or_empty(views, 0));
            assert(kind@ == segment_or_empty(views, 1));
            assert(name@ == segment_or_empty(views, 2));
            let t_me = ['t', '.', 'm', 'e'];
            let www_t_me = ['w', 'w', 'w', '.', 't', '.', 'm', 'e'];
            let add_stickers = ['a', 'd', 'd', 's', 't', 'i', 'c', 'k', 'e', 'r', 's'];
            let add_emoji = ['a', 'd', 'd', 'e', 'm', 'o', 'j', 'i'];
            assert(t_me@ =~= seq!['t', '.', 'm', 'e']);
            assert(www_t_me@ =~= seq!['w', 'w', 'w', '.', 't', '.', 'm', 'e']);
            assert(add_stickers@ =~= seq!['a', 'd', 'd', 's', 't', 'i', 'c', 'k', 'e', 'r', 's']);
            assert(add_emoji@ =~= seq!['a', 'd', 'd', 'e', 'm', 'o', 'j', 'i']);
            let host_ok = lower_equals(host, t_me.as_slice()) || lower_equals(host, www_t_me.as_slice());
            let kind_ok = lower_equals(kind, add_stickers.as_slice()) || lower_equals(kind, add_emoji.as_slice());
            if !host_ok || !kind_ok {
                return Err(TelegramError::NotAPackLink);
            }
            if parts.len() > 3 || name.len() == 0 {
                return Err(TelegramError::NotOneSetName);
            }
            let result = copy_range(name, 0, name.len());
            assert(result@ =~= name@);
            assert(spec_link_candidate(t@) == Ok::<Seq<char>, TelegramError>(name@));
            Ok(result)
        },
    }
}

/// Extracts the sticker-set name from a `t.me/addstickers/<name>` or
/// `t.me/addemoji/<name>` link (query and fragment ignored, host and path
/// kind compared without regard to ASCII case), or takes the trimmed input
/// as the name; the name must be 1 to 64 ASCII letters, digits or `_`.
pub fn parse_sticker_set_name(link_or_name: &str) -> (r: Result<String, TelegramError>)
    ensures
        string_result_view(r) == spec_parse_sticker_set_name(link_or_name@),
{
    let chars = chars_of(link_or_name);
    let (start, end) = trim_bounds(&chars);
    let trimmed = copy_range(&chars, start, end);
    let candidate = link_candidate(&trimmed)?;
    if !valid_set_name(&candidate) {
        return Err(TelegramError::InvalidSetName);
    }
    Ok(string_from_chars(&candidate))
}


/// Law: whatever `parse_sticker_set_name` accepts is a well-formed
/// sticker-set name.
pub proof fn lemma_parsed_name_is_valid(link_or_name: Seq<char>)
    ensures
        spec_parse_sticker_set_name(link_or_name) matches Ok(name) ==> {
            &&& 1 <= name.len() <= 64
            &&& forall|i: int|
                0 <= i < name.len() ==> ('a' <= #[trigger] name[i] <= 'z') || ('A' <= name[i] <= 'Z') || ('0'
                    <= name[i] <= '9') || name[i] == '_'
        },
{
    if let Ok(name) = spec_parse_sticker_set_name(link_or_name) {
        assert forall|i: int| 0 <= i < name.len() implies ('a' <= #[trigger] name[i] <= 'z') || ('A' <= name[i]
            <= 'Z') || ('0' <= name[i] <= '9') || name[i] == '_' by {
            assert(is_set_name_char(name[i]));
        }
    }
}

/// Law: a text of printable ASCII without `:` is taken as the name itself:
/// it is accepted exactly when it has 1 to 64 characters, each an ASCII
/// letter, digit or `_`, and refused as an invalid name otherwise.
pub proof fn lemma_bare_text_is_the_name(text: Seq<char>)
    requires
        forall|i: int| 0 <= i < text.len() ==> '!' <= #[trigger] text[i] <= '~' && text[i] != ':',
    ensures
        spec_parse_sticker_set_name(text) == (if 1 <= text.len() <= 64 && forall|i: int|
            0 <= i < text.len() ==> ('a' <= #[trigger] text[i] <= 'z') || ('A' <= text[i] <= 'Z') || ('0' <= text[i]
                <= '9') || text[i] == '_' {
            Ok::<Seq<char>, TelegramError>(text)
        } else {
            Err(TelegramError::InvalidSetName)
        }),
{
    if text.len() > 0 {
        assert('!' <= text[0] <= '~');
        assert('!' <= text.last() <= '~');
    }
    assert(trim_start(text) == text);
    assert(trim_end(text) == text);
    lemma_no_separator(text, 0);
    if spec_valid_set_name(text) {
        assert forall|i: int| 0 <= i < text.len() implies ('a' <= #[trigger] text[i] <= 'z') || ('A' <= text[i]
            <= 'Z') || ('0' <= text[i] <= '9') || text[i] == '_' by {
            assert(is_set_name_char(text[i]));
        }
    }
    if 1 <= text.len() <= 64 && forall|i: int|
        0 <= i < text.len() ==> ('a' <= #[trigger] text[i] <= 'z') || ('A' <= text[i] <= 'Z') || ('0' <= text[i]
            <= '9') || text[i] == '_' {
        assert forall|i: int| 0 <= i < text.len() implies #[trigger] is_set_name_char(text[i]) by {
            assert(('a' <= text[i] <= 'z') || ('A' <= text[i] <= 'Z') || ('0' <= text[i] <= '9') || text[i] == '_');
        }
    }
}

proof fn lemma_no_separator(s: Seq<char>, i: nat)
    requires
        forall|j: int| i <= j < s.len() ==> s[j] != ':',
    ensures
        find_scheme_separator(s, i) is None,
    decreases s.len() - i,
{
    if i + 3 <= s.len() {
        lemma_no_separator(s, i + 1);
    }
}

proof fn lemma_separator_found(s: Seq<char>, i: nat, k: nat)
    requires
        i <= k,
        scheme_separator_at(s, k as int),
        forall|j: int| i <= j < k ==> s[j] != ':',
    ensures
        find_scheme_separator(s, i) == Some(k),
    decreases k - i,
{
    if i < k {
        lemma_separator_found(s, i + 1, k);
    }
}

proof fn lemma_no_query(s: Seq<char>, i: nat)
    requires
        forall|j: int| i <= j < s.len() ==> s[j] != '?' && s[j] != '#',
    ensures
        query_start(s, i) == s.len(),
    decreases s.len() - i,
{
    if i < s.len() {
        lemma_no_query(s, i + 1);
    }
}

proof fn lemma_segment_run(s: Seq<char>, done: Seq<Seq<char>>, current: Seq<char>)
    requires
        forall|j: int| 0 <= j < s.len() ==> s[j] != '/',
    ensures
        split_segments(s, done, current) == (if (current + s).len() == 0 { done } else { done.push(current + s) }),
    decreases s.len(),
{
    if s.len() > 0 {
        lemma_segment_run(s.drop_first(), done, current.push(s[0]));
        assert(current.push(s[0]) + s.drop_first() =~= current + s);
    } else {
        assert(current + s =~= current);
    }
}

proof fn lemma_segment_then_slash(a: Seq<char>, b: Seq<char>, done: Seq<Seq<char>>)
    requires
        a.len() > 0,
        forall|j: int| 0 <= j < a.len() ==> a[j] != '/',
    ensures
        split_segments(a + seq!['/'] + b, done, Seq::empty()) == split_segments(b, done.push(a), Seq::empty()),
{
    lemma_segment_prefix(a, b, done, Seq::empty());
    assert(Seq::<char>::empty() + a =~= a);
}

proof fn lemma_segment_prefix(a: Seq<char>, b: Seq<char>, done: Seq<Seq<char>>, current: Seq<char>)
    requires
        (current + a).len() > 0,
        forall|j: int| 0 <= j < a.len() ==> a[j] != '/',
    ensures
        split_segments(a + seq!['/'] + b, done, current) == split_segments(b, done.push(current + a), Seq::empty()),
    decreases a.len(),
{
    let s = a + seq!['/'] + b;
    if a.len() == 0 {
        assert(s.drop_first() =~= b);
        assert(current + a =~= current);
    } else {
        assert(s.drop_first() =~= a.drop_first() + seq!['/'] + b);
        assert(s[0] == a[0]);
        lemma_segment_prefix(a.drop_first(), b, done, current.push(a[0]));
        assert(current.push(a[0]) + a.drop_first() =~= current + a);
    }
}

proof fn lemma_lower_identity(s: Seq<char>)
    requires
        forall|j: int| 0 <= j < s.len() ==> !('A' <= #[trigger] s[j] <= 'Z'),
    ensures
        ascii_lower_seq(s) == s,
{
    assert(ascii_lower_seq(s) =~= s);
}

/// The pack link `<scheme>://<host>/<kind>/<name>`.
pub open spec fn pack_link(scheme: Seq<char>, host: Seq<char>, kind: Seq<char>, name: Seq<char>) -> Seq<char> {
    scheme + seq![':', '/', '/'] + host + seq!['/'] + kind + seq!['/'] + name
}

proof fn lemma_trim_start_skips(p: Seq<char>, x: Seq<char>)
    requires
        forall|j: int| 0 <= j < p.len() ==> is_white_space(#[trigger] p[j]),
    ensures
        trim_start(p + x) == trim_start(x),
    decreases p.len(),
{
    if p.len() > 0 {
        assert((p + x)[0] == p[0]);
        assert((p + x).drop_first() =~= p.drop_first() + x);
        lemma_trim_start_skips(p.drop_first(), x);
    } else {
        assert(p + x =~= x);
    }
}

proof fn lemma_trim_end_skips(x: Seq<char>, q: Seq<char>)
    requires
        forall|j: int| 0 <= j < q.len() ==> is_white_space(#[trigger] q[j]),
    ensures
        trim_end(x + q) == trim_end(x),
    decreases q.len(),
{
    if q.len() > 0 {
        assert((x + q).last() == q.last());
        assert(is_white_space(q[q.len() - 1]));
        assert((x + q).drop_last() =~= x + q.drop_last());
        lemma_trim_end_skips(x, q.drop_last());
    } else {
        assert(x + q =~= x);
    }
}

proof fn lemma_trim_with_trailing(x: Seq<char>, q: Seq<char>)
    requires
        forall|j: int| 0 <= j < q.len() ==> is_white_space(#[trigger] q[j]),
    ensures
        trim_end(trim_start(x + q)) == trim_end(trim_start(x)),
    decreases x.len(),
{
    if x.len() == 0 {
        assert(x + q =~= q);
        lemma_trim_start_skips(q, Seq::empty());
        assert(q + Seq::<char>::empty() =~= q);
    } else if is_white_space(x[0]) {
        assert((x + q)[0] == x[0]);
        assert((x + q).drop_first() =~= x.drop_first() + q);
        lemma_trim_with_trailing(x.drop_first(), q);
    } else {
        assert((x + q)[0] == x[0]);
        lemma_trim_end_skips(x, q);
    }
}

/// Law: white space around the input is ignored: surrounding a link or
/// name with spaces, tabs, line feeds or carriage returns does not change
/// what it designates.
pub proof fn lemma_surrounding_white_space_is_ignored(before: Seq<char>, text: Seq<char>, after: Seq<char>)
    requires
        forall|j: int|
            0 <= j < before.len() ==> #[trigger] before[j] == ' ' || before[j] == '\t' || before[j] == '\n' || before[j]
                == '\r',
        forall|j: int|
            0 <= j < after.len() ==> #[trigger] after[j] == ' ' || after[j] == '\t' || after[j] == '\n' || after[j]
                == '\r',
    ensures
        spec_parse_sticker_set_name(before + text + after) == spec_parse_sticker_set_name(text),
{
    assert forall|j: int| 0 <= j < before.len() implies is_white_space(#[trigger] before[j]) by {
        assert(before[j] == ' ' || before[j] == '\t' || before[j] == '\n' || before[j] == '\r');
    }
    assert forall|j: int| 0 <= j < after.len() implies is_white_space(#[trigger] after[j]) by {
        assert(after[j] == ' ' || after[j] == '\t' || after[j] == '\n' || after[j] == '\r');
    }
    assert(before + text + after =~= before + (text + after));
    lemma_trim_start_skips(before, text + after);
    lemma_trim_with_trailing(text, after);
}

/// Law: a bare, well-formed sticker-set name designates itself.
pub proof fn lemma_bare_name_parses_to_itself(name: Seq<char>)
    requires
        spec_valid_set_name(name),
    ensures
        spec_parse_sticker_set_name(name) == Ok::<Seq<char>, TelegramError>(name),
{
    assert(is_set_name_char(name[0]));
    assert(is_set_name_char(name.last()));
    assert(trim_start(name) == name);
    assert(trim_end(name) == name);
    assert forall|j: int| 0 <= j < name.len() implies name[j] != ':' by {
        assert(is_set_name_char(name[j]));
    }
    lemma_no_separator(name, 0);
}

/// Law: the name in a pack link `<scheme>://t.me/addstickers/<name>` (or
/// with host `www.t.me`, or kind `addemoji`) is what the link designates.
#[verifier::rlimit(60)]
pub proof fn lemma_pack_link_parses_to_name(scheme: Seq<char>, host: Seq<char>, kind: Seq<char>, name: Seq<char>)
    requires
        scheme.len() > 0,
        forall|j: int| 0 <= j < scheme.len() ==> 'a' <= #[trigger] scheme[j] <= 'z',
        host == seq!['t', '.', 'm', 'e'] || host == seq!['w', 'w', 'w', '.', 't', '.', 'm', 'e'],
        kind == seq!['a', 'd', 'd', 's', 't', 'i', 'c', 'k', 'e', 'r', 's'] || kind == seq!['a', 'd', 'd', 'e', 'm', 'o', 'j', 'i'],
        spec_valid_set_name(name),
    ensures
        spec_parse_sticker_set_name(pack_link(scheme, host, kind, name)) == Ok::<Seq<char>, TelegramError>(name),
{
    let link = pack_link(scheme, host, kind, name);
    let rest = host + seq!['/'] + kind + seq!['/'] + name;
    assert forall|j: int| 0 <= j < name.len() implies name[j] != '/' && name[j] != '?' && name[j] != '#'
        && name[j] != ':' by {
        assert(is_set_name_char(name[j]));
    }
    // No white space at either end.
    assert(link[0] == scheme[0]);
    assert('a' <= scheme[0] <= 'z');
    assert(trim_start(link) == link);
    assert(link.last() == name.last());
    assert(is_set_name_char(name.last()));
    assert(trim_end(link) == link);
    // The scheme separator follows the scheme.
    assert forall|j: int| 0 <= j < scheme.len() implies link[j] != ':' by {
        assert(link[j] == scheme[j]);
        assert('a' <= scheme[j] <= 'z');
    }
    assert(link[scheme.len() as int] == ':');
    assert(link[scheme.len() + 1int] == '/');
    assert(link[scheme.len() + 2int] == '/');
    lemma_separator_found(link, 0, scheme.len());
    assert(link.skip(scheme.len() + 3int) =~= rest);
    // No query or fragment.
    assert forall|j: int| 0 <= j < rest.len() implies rest[j] != '?' && rest[j] != '#' by {
        if j >= host.len() + kind.len() + 2 {
            assert(rest[j] == name[j - host.len() - kind.len() - 2]);
        }
    }
    lemma_no_query(rest, 0);
    assert(rest.take(rest.len() as int) =~= rest);
    // Three segments: host, kind, name.
    assert(rest =~= host + seq!['/'] + (kind + seq!['/'] + name));
    lemma_segment_then_slash(host, kind + seq!['/'] + name, Seq::empty());
    lemma_segment_then_slash(kind, name, Seq::<Seq<char>>::empty().push(host));
    lemma_segment_run(name, Seq::<Seq<char>>::empty().push(host).push(kind), Seq::empty());
    assert(Seq::<char>::empty() + name =~= name);
    let parts = path_segments(rest);
    assert(parts =~= seq![host, kind, name]);
    lemma_lower_identity(host);
    lemma_lower_identity(kind);
}

proof fn lemma_query_found(s: Seq<char>, i: nat, k: nat)
    requires
        i <= k < s.len(),
        s[k as int] == '?' || s[k as int] == '#',
        forall|j: int| i <= j < k ==> s[j] != '?' && s[j] != '#',
    ensures
        query_start(s, i) == k,
    decreases k - i,
{
    if i < k {
        lemma_query_found(s, i + 1, k);
    }
}

proof fn lemma_lower_matches(s: Seq<char>, target: Seq<char>)
    requires
        s.len() == target.len(),
        forall|j: int| 0 <= j < target.len() ==> ('a' <= #[trigger] target[j] <= 'z') || target[j] == '.',
        forall|j: int|
            0 <= j < s.len() ==> #[trigger] s[j] == target[j] || ('a' <= target[j] <= 'z' && s[j] as int == target[j]
                as int - 32),
    ensures
        ascii_lower_seq(s) == target,
{
    assert forall|j: int| 0 <= j < s.len() implies #[trigger] ascii_lower(s[j]) == target[j] by {
        assert(('a' <= target[j] <= 'z') || target[j] == '.');
    }
    assert(ascii_lower_seq(s) =~= target);
}

/// Law: host and path kind are compared without regard to ASCII case, and
/// the query and fragment are ignored: for a link
/// `<scheme>://<host>/<kind>/<name><tail>` whose host spells `t.me` or
/// `www.t.me` and whose kind spells `addstickers` or `addemoji`, each letter
/// in either case, and whose tail is empty or starts with `?` or `#`, the
/// designated set is `<name>`.
#[verifier::rlimit(60)]
pub proof fn lemma_pack_link_case_and_query(
    scheme: Seq<char>,
    host: Seq<char>,
    host_lower: Seq<char>,
    kind: Seq<char>,
    kind_lower: Seq<char>,
    name: Seq<char>,
    tail: Seq<char>,
)
    requires
        scheme.len() > 0,
        forall|j: int| 0 <= j < scheme.len() ==> 'a' <= #[trigger] scheme[j] <= 'z',
        host_lower == seq!['t', '.', 'm', 'e'] || host_lower == seq!['w', 'w', 'w', '.', 't', '.', 'm', 'e'],
        kind_lower == seq!['a', 'd', 'd', 's', 't', 'i', 'c', 'k', 'e', 'r', 's'] || kind_lower == seq![
            'a',
            'd',
            'd',
            'e',
            'm',
            'o',
            'j',
            'i',
        ],
        host.len() == host_lower.len(),
        forall|j: int|
            0 <= j < host.len() ==> #[trigger] host[j] == host_lower[j] || ('a' <= host_lower[j] <= 'z' && host[j] as int
                == host_lower[j] as int - 32),
        kind.len() == kind_lower.len(),
        forall|j: int|
            0 <= j < kind.len() ==> #[trigger] kind[j] == kind_lower[j] || ('a' <= kind_lower[j] <= 'z' && kind[j] as int
                == kind_lower[j] as int - 32),
        1 <= name.len() <= 64,
        forall|i: int|
            0 <= i < name.len() ==> ('a' <= #[trigger] name[i] <= 'z') || ('A' <= name[i] <= 'Z') || ('0' <= name[i]
                <= '9') || name[i] == '_',
        tail.len() == 0 || (tail[0] == '?' || tail[0] == '#'),
        forall|i: int| 0 <= i < tail.len() ==> '!' <= #[trigger] tail[i] <= '~',
    ensures
        spec_parse_sticker_set_name(pack_link(scheme, host, kind, name) + tail) == Ok::<Seq<char>, TelegramError>(name),
{
    let path = host + seq!['/'] + kind + seq!['/'] + name;
    let link = pack_link(scheme, host, kind, name) + tail;
    let rest = path + tail;
    assert(spec_valid_set_name(name));
    assert forall|j: int| 0 <= j < name.len() implies name[j] != '/' && name[j] != '?' && name[j] != '#'
        && name[j] != ':' by {
        assert(is_set_name_char(name[j]));
    }
    assert forall|j: int| 0 <= j < host.len() implies host[j] != '/' && host[j] != '?' && host[j] != '#' by {
        assert(host[j] == host_lower[j] || ('a' <= host_lower[j] <= 'z' && host[j] as int == host_lower[j] as int - 32));
    }
    assert forall|j: int| 0 <= j < kind.len() implies kind[j] != '/' && kind[j] != '?' && kind[j] != '#' by {
        assert(kind[j] == kind_lower[j] || ('a' <= kind_lower[j] <= 'z' && kind[j] as int == kind_lower[j] as int - 32));
    }
    // No white space at either end.
    assert(link[0] == scheme[0]);
    assert('a' <= scheme[0] <= 'z');
    assert(trim_start(link) == link);
    if tail.len() > 0 {
        assert(link.last() == tail.last());
        assert('!' <= tail.last() <= '~');
    } else {
        assert(link.last() == name.last());
        assert(is_set_name_char(name.last()));
    }
    assert(trim_end(link) == link);
    // The scheme separator follows the scheme.
    assert forall|j: int| 0 <= j < scheme.len() implies link[j] != ':' by {
        assert(link[j] == scheme[j]);
        assert('a' <= scheme[j] <= 'z');
    }
    assert(link[scheme.len() as int] == ':');
    assert(link[scheme.len() + 1int] == '/');
    assert(link[scheme.len() + 2int] == '/');
    lemma_separator_found(link, 0, scheme.len());
    assert(link.skip(scheme.len() + 3int) =~= rest);
    // The query or fragment starts right after the name.
    assert forall|j: int| 0 <= j < path.len() implies rest[j] != '?' && rest[j] != '#' by {
        assert(rest[j] == path[j]);
        if j >= host.len() + kind.len() + 2 {
            assert(path[j] == name[j - host.len() - kind.len() - 2]);
        } else if j > host.len() && j < host.len() + kind.len() + 1 {
            assert(path[j] == kind[j - host.len() - 1]);
        } else if j < host.len() {
            assert(path[j] == host[j]);
        }
    }
    if tail.len() > 0 {
        assert(rest[path.len() as int] == tail[0]);
        lemma_query_found(rest, 0, path.len());
    } else {
        assert(rest =~= path);
        lemma_no_query(rest, 0);
    }
    assert(rest.take(path.len() as int) =~= path);
    // Three segments: host, kind, name.
    assert(path =~= host + seq!['/'] + (kind + seq!['/'] + name));
    lemma_segment_then_slash(host, kind + seq!['/'] + name, Seq::empty());
    lemma_segment_then_slash(kind, name, Seq::<Seq<char>>::empty().push(host));
    lemma_segment_run(name, Seq::<Seq<char>>::empty().push(host).push(kind), Seq::empty());
    assert(Seq::<char>::empty() + name =~= name);
    let parts = path_segments(path);
    assert(parts =~= seq![host, kind, name]);
    lemma_lower_matches(host, host_lower);
    lemma_lower_matches(kind, kind_lower);
}

/// A path segment of printable ASCII without `/`, `?`, `#`.
pub open spec fn plain_segment(s: Seq<char>) -> bool {
    &&& s.len() > 0
    &&& forall|j: int|
        0 <= j < s.len() ==> '!' <= #[trigger] s[j] <= '~' && s[j] != '/' && s[j] != '?' && s[j] != '#'
}

#[verifier::rlimit(60)]
#[verifier::spinoff_prover]
proof fn lemma_pack_link_structure(
    scheme: Seq<char>,
    host: Seq<char>,
    kind: Seq<char>,
    name: Seq<char>,
    extra: Seq<char>,
)
    requires
        scheme.len() > 0,
        forall|j: int| 0 <= j < scheme.len() ==> 'a' <= #[trigger] scheme[j] <= 'z',
        plain_segment(host),
        plain_segment(kind),
        plain_segment(name),
        extra.len() == 0 || plain_segment(extra),
    ensures
        ({
            let link = if extra.len() == 0 {
                pack_link(scheme, host, kind, name)
            } else {
                pack_link(scheme, host, kind, name) + seq!['/'] + extra
            };
            let h = ascii_lower_seq(host);
            let k = ascii_lower_seq(kind);
            spec_parse_sticker_set_name(link) == if (h != seq!['t', '.', 'm', 'e'] && h != seq![
                'w',
                'w',
                'w',
                '.',
                't',
                '.',
                'm',
                'e',
            ]) || (k != seq!['a', 'd', 'd', 's', 't', 'i', 'c', 'k', 'e', 'r', 's'] && k != seq![
                'a',
                'd',
                'd',
                'e',
                'm',
                'o',
                'j',
                'i',
            ]) {
                Err(TelegramError::NotAPackLink)
            } else if extra.len() > 0 {
                Err(TelegramError::NotOneSetName)
            } else if spec_valid_set_name(name) {
                Ok::<Seq<char>, TelegramError>(name)
            } else {
                Err(TelegramError::InvalidSetName)
            }
        }),
{
    let path = if extra.len() == 0 {
        host + seq!['/'] + kind + seq!['/'] + name
    } else {
        host + seq!['/'] + kind + seq!['/'] + name + seq!['/'] + extra
    };
    let link = scheme + seq![':', '/', '/'] + path;
    assert(link =~= if extra.len() == 0 {
        pack_link(scheme, host, kind, name)
    } else {
        pack_link(scheme, host, kind, name) + seq!['/'] + extra
    });
    assert forall|j: int| 0 <= j < path.len() implies '!' <= #[trigger] path[j] <= '~' && path[j] != '?' && path[j]
        != '#' by {
        let a = host.len() as int;
        let b = a + 1 + kind.len();
        let c = b + 1 + name.len();
        if j < a {
            assert(path[j] == host[j]);
        } else if j == a || j == b || j == c {
        } else if j < b {
            assert(path[j] == kind[j - a - 1]);
        } else if j < c {
            assert(path[j] == name[j - b - 1]);
        } else {
            assert(path[j] == extra[j - c - 1]);
        }
    }
    assert(link[0] == scheme[0]);
    assert('a' <= scheme[0] <= 'z');
    assert(trim_start(link) == link);
    assert(link.last() == path.last());
    assert('!' <= path[path.len() - 1] <= '~');
    assert(trim_end(link) == link);
    assert forall|j: int| 0 <= j < scheme.len() implies link[j] != ':' by {
        assert(link[j] == scheme[j]);
        assert('a' <= scheme[j] <= 'z');
    }
    assert(link[scheme.len() as int] == ':');
    assert(link[scheme.len() + 1int] == '/');
    assert(link[scheme.len() + 2int] == '/');
    lemma_separator_found(link, 0, scheme.len());
    assert(link.skip(scheme.len() + 3int) =~= path);
    lemma_no_query(path, 0);
    assert(path.take(path.len() as int) =~= path);
    if extra.len() == 0 {
        assert(path =~= host + seq!['/'] + (kind + seq!['/'] + name));
        lemma_segment_then_slash(host, kind + seq!['/'] + name, Seq::empty());
        lemma_segment_then_slash(kind, name, Seq::<Seq<char>>::empty().push(host));
        lemma_segment_run(name, Seq::<Seq<char>>::empty().push(host).push(kind), Seq::empty());
        assert(Seq::<char>::empty() + name =~= name);
        assert(path_segments(path) =~= seq![host, kind, name]);
    } else {
        assert(path =~= host + seq!['/'] + (kind + seq!['/'] + (name + seq!['/'] + extra)));
        lemma_segment_then_slash(host, kind + seq!['/'] + (name + seq!['/'] + extra), Seq::empty());
        lemma_segment_then_slash(kind, name + seq!['/'] + extra, Seq::<Seq<char>>::empty().push(host));
        lemma_segment_then_slash(name, extra, Seq::<Seq<char>>::empty().push(host).push(kind));
        lemma_segment_run(extra, Seq::<Seq<char>>::empty().push(host).push(kind).push(name), Seq::empty());
        assert(Seq::<char>::empty() + extra =~= extra);
        assert(path_segments(path) =~= seq![host, kind, name, extra]);
    }
}

/// Law: a link to any other host is refused as not a pack link: for
/// `<scheme>://<host>/<kind>/<name>` with a lower-case host other than
/// `t.me` and `www.t.me`, whatever the kind and name.
pub proof fn lemma_other_hosts_are_refused(scheme: Seq<char>, host: Seq<char>, kind: Seq<char>, name: Seq<char>)
    requires
        scheme.len() > 0,
        forall|j: int| 0 <= j < scheme.len() ==> 'a' <= #[trigger] scheme[j] <= 'z',
        plain_segment(host),
        forall|j: int| 0 <= j < host.len() ==> !('A' <= #[trigger] host[j] <= 'Z'),
        host != seq!['t', '.', 'm', 'e'],
        host != seq!['w', 'w', 'w', '.', 't', '.', 'm', 'e'],
        plain_segment(kind),
        plain_segment(name),
    ensures
        spec_parse_sticker_set_name(pack_link(scheme, host, kind, name)) == Err::<Seq<char>, TelegramError>(
            TelegramError::NotAPackLink,
        ),
{
    lemma_pack_link_structure(scheme, host, kind, name, Seq::empty());
    lemma_lower_identity(host);
}

/// Law: a pack link with a further path segment after the name is refused
/// as not naming exactly one set.
pub proof fn lemma_extra_segment_is_refused(scheme: Seq<char>, host: Seq<char>, kind: Seq<char>, name: Seq<char>, extra: Seq<char>)
    requires
        scheme.len() > 0,
        forall|j: int| 0 <= j < scheme.len() ==> 'a' <= #[trigger] scheme[j] <= 'z',
        host == seq!['t', '.', 'm', 'e'] || host == seq!['w', 'w', 'w', '.', 't', '.', 'm', 'e'],
        kind == seq!['a', 'd', 'd', 's', 't', 'i', 'c', 'k', 'e', 'r', 's'] || kind == seq!['a', 'd', 'd', 'e', 'm', 'o', 'j', 'i'],
        plain_segment(name),
        plain_segment(extra),
    ensures
        spec_parse_sticker_set_name(pack_link(scheme, host, kind, name) + seq!['/'] + extra) == Err::<
            Seq<char>,
            TelegramError,
        >(TelegramError::NotOneSetName),
{
    assert(plain_segment(host));
    assert(plain_segment(kind));
    lemma_pack_link_structure(scheme, host, kind, name, extra);
    lemma_lower_identity(host);
    lemma_lower_identity(kind);
}

/// Law: a pack link whose name has a character other than ASCII letters,
/// digits and `_`, or more than 64 characters, is refused as an invalid name.
pub proof fn lemma_bad_names_in_links_are_refused(scheme: Seq<char>, host: Seq<char>, kind: Seq<char>, name: Seq<char>)
    requires
        scheme.len() > 0,
        forall|j: int| 0 <= j < scheme.len() ==> 'a' <= #[trigger] scheme[j] <= 'z',
        host == seq!['t', '.', 'm', 'e'] || host == seq!['w', 'w', 'w', '.', 't', '.', 'm', 'e'],
        kind == seq!['a', 'd', 'd', 's', 't', 'i', 'c', 'k', 'e', 'r', 's'] || kind == seq!['a', 'd', 'd', 'e', 'm', 'o', 'j', 'i'],
        plain_segment(name),
        name.len() > 64 || exists|i: int|
            0 <= i < name.len() && !(('a' <= #[trigger] name[i] <= 'z') || ('A' <= name[i] <= 'Z') || ('0' <= name[i]
                <= '9') || name[i] == '_'),
    ensures
        spec_parse_sticker_set_name(pack_link(scheme, host, kind, name)) == Err::<Seq<char>, TelegramError>(
            TelegramError::InvalidSetName,
        ),
{
    assert(plain_segment(host));
    assert(plain_segment(kind));
    lemma_pack_link_structure(scheme, host, kind, name, Seq::empty());
    lemma_lower_identity(host);
    lemma_lower_identity(kind);
    if name.len() <= 64 {
        let i = choose|i: int|
            0 <= i < name.len() && !(('a' <= #[trigger] name[i] <= 'z') || ('A' <= name[i] <= 'Z') || ('0' <= name[i]
                <= '9') || name[i] == '_');
        assert(!is_set_name_char(name[i]));
    }
}

/// Control characters (general category `Cc`), as `char::is_control` has it.
pub open spec fn is_control(c: char) -> bool {
    c <= '\u{1f}' || ('\u{7f}' <= c <= '\u{9f}')
}

/// Characters kept in an emoji file-name prefix: everything but the emoji
/// variation selector U+FE0F, control characters and `/ \ : * ? " < > |`.
pub open spec fn keeps_emoji_char(c: char) -> bool {
    &&& c != '\u{fe0f}'
    &&& !is_control(c)
    &&& c != '/' && c != '\\' && c != ':' && c != '*' && c != '?' && c != '"' && c != '<' && c != '>' && c != '|'
}

/// `s` with the characters that `keeps_emoji_char` rejects removed.
pub open spec fn spec_clean_emoji(s: Seq<char>) -> Seq<char>
    decreases s.len(),
{
    if s.len() == 0 {
        Seq::empty()
    } else if keeps_emoji_char(s.last()) {
        spec_clean_emoji(s.drop_last()).push(s.last())
    } else {
        spec_clean_emoji(s.drop_last())
    }
}

/// Makes an emoji safe for use in a file name.
pub fn clean_emoji(value: &str) -> (r: String)
    ensures
        r@ == spec_clean_emoji(value@),
{
    let chars = chars_of(value);
    let mut out = String::new();
    let mut i: usize = 0;
    while i < chars.len()
        invariant
            chars@ == value@,
            i <= chars@.len(),
            out@ == spec_clean_emoji(chars@.take(i as int)),
        decreases chars.len() - i,
    {
        let c = chars[i];
        assert(chars@.take(i + 1).drop_last() =~= chars@.take(i as int));
        assert(chars@.take(i + 1).last() == c);
        let control = c <= '\u{1f}' || ('\u{7f}' <= c && c <= '\u{9f}');
        if c != '\u{fe0f}' && !control && c != '/' && c != '\\' && c != ':' && c != '*' && c != '?' && c != '"'
            && c != '<' && c != '>' && c != '|' {
            push_char(&mut out, c);
        }
        i = i + 1;
    }
    assert(chars@.take(chars@.len() as int) =~= chars@);
    out
}

/// Law: cleaning works character by character: the cleaning of `a + b` is
/// the cleaning of `a` followed by that of `b`.
pub proof fn lemma_clean_emoji_concat(a: Seq<char>, b: Seq<char>)
    ensures
        spec_clean_emoji(a + b) == spec_clean_emoji(a) + spec_clean_emoji(b),
    decreases b.len(),
{
    if b.len() == 0 {
        assert(a + b =~= a);
        assert(spec_clean_emoji(a) + spec_clean_emoji(b) =~= spec_clean_emoji(a));
    } else {
        lemma_clean_emoji_concat(a, b.drop_last());
        assert((a + b).drop_last() =~= a + b.drop_last());
        assert((a + b).last() == b.last());
        if keeps_emoji_char(b.last()) {
            assert(spec_clean_emoji(a) + spec_clean_emoji(b.drop_last()).push(b.last()) =~= (spec_clean_emoji(a)
                + spec_clean_emoji(b.drop_last())).push(b.last()));
        }
    }
}

/// Law: cleaning drops a character exactly when it is U+FE0F, a control
/// character (U+0000..=U+001F or U+007F..=U+009F) or one of
/// `/ \ : * ? " < > |`, and keeps every other character.
pub proof fn lemma_clean_emoji_single(c: char)
    ensures
        spec_clean_emoji(seq![c]) == (if c == '\u{fe0f}' || c <= '\u{1f}' || ('\u{7f}' <= c && c <= '\u{9f}') || c == '/'
            || c == '\\' || c == ':' || c == '*' || c == '?' || c == '"' || c == '<' || c == '>' || c == '|' {
            Seq::<char>::empty()
        } else {
            seq![c]
        }),
{
    let s = seq![c];
    assert(s.drop_last() =~= Seq::<char>::empty());
    assert(s.last() == c);
    assert(spec_clean_emoji(Seq::<char>::empty()) == Seq::<char>::empty());
    assert(Seq::<char>::empty().push(c) =~= s);
}

proof fn lemma_clean_emoji_identity(s: Seq<char>)
    requires
        forall|i: int| 0 <= i < s.len() ==> keeps_emoji_char(#[trigger] s[i]),
    ensures
        spec_clean_emoji(s) == s,
    decreases s.len(),
{
    if s.len() > 0 {
        lemma_clean_emoji_identity(s.drop_last());
        assert(keeps_emoji_char(s[s.len() - 1]));
        assert(s.drop_last().push(s.last()) =~= s);
    }
}

proof fn lemma_clean_emoji_erases(s: Seq<char>)
    requires
        forall|i: int| 0 <= i < s.len() ==> !keeps_emoji_char(#[trigger] s[i]),
    ensures
        spec_clean_emoji(s) == Seq::<char>::empty(),
    decreases s.len(),
{
    if s.len() > 0 {
        lemma_clean_emoji_erases(s.drop_last());
        assert(!keeps_emoji_char(s[s.len() - 1]));
    }
}

/// Law: a downloaded file is named `<unique_id>.<extension>` when the
/// sticker has no emoji or its emoji holds only dropped characters (U+FE0F,
/// controls, `/ \ : * ? " < > |`), and `<emoji>_<unique_id>.<extension>`
/// when the emoji holds none of them.
pub proof fn lemma_filename_shape(emoji: Option<Seq<char>>, unique_id: Seq<char>, extension: Seq<char>)
    ensures
        emoji is None ==> spec_filename(emoji, unique_id, extension) == unique_id + seq!['.'] + extension,
        emoji is Some && (forall|i: int|
            0 <= i < emoji->0.len() ==> {
                let c = #[trigger] emoji->0[i];
                c == '\u{fe0f}' || c <= '\u{1f}' || ('\u{7f}' <= c && c <= '\u{9f}') || c == '/' || c == '\\' || c
                    == ':' || c == '*' || c == '?' || c == '"' || c == '<' || c == '>' || c == '|'
            }) ==> spec_filename(emoji, unique_id, extension) == unique_id + seq!['.'] + extension,
        emoji is Some && emoji->0.len() > 0 && (forall|i: int|
            0 <= i < emoji->0.len() ==> {
                let c = #[trigger] emoji->0[i];
                !(c == '\u{fe0f}' || c <= '\u{1f}' || ('\u{7f}' <= c && c <= '\u{9f}') || c == '/' || c == '\\' || c
                    == ':' || c == '*' || c == '?' || c == '"' || c == '<' || c == '>' || c == '|')
            }) ==> spec_filename(emoji, unique_id, extension) == emoji->0 + seq!['_'] + unique_id + seq!['.'] + extension,
{
    if let Some(e) = emoji {
        if forall|i: int|
            0 <= i < e.len() ==> {
                let c = #[trigger] e[i];
                c == '\u{fe0f}' || c <= '\u{1f}' || ('\u{7f}' <= c && c <= '\u{9f}') || c == '/' || c == '\\' || c
                    == ':' || c == '*' || c == '?' || c == '"' || c == '<' || c == '>' || c == '|'
            } {
            assert forall|i: int| 0 <= i < e.len() implies !keeps_emoji_char(#[trigger] e[i]) by {
                let c = e[i];
                assert(c == '\u{fe0f}' || c <= '\u{1f}' || ('\u{7f}' <= c && c <= '\u{9f}') || c == '/' || c == '\\'
                    || c == ':' || c == '*' || c == '?' || c == '"' || c == '<' || c == '>' || c == '|');
            }
            lemma_clean_emoji_erases(e);
        }
        if forall|i: int|
            0 <= i < e.len() ==> {
                let c = #[trigger] e[i];
                !(c == '\u{fe0f}' || c <= '\u{1f}' || ('\u{7f}' <= c && c <= '\u{9f}') || c == '/' || c == '\\' || c
                    == ':' || c == '*' || c == '?' || c == '"' || c == '<' || c == '>' || c == '|')
            } {
            assert forall|i: int| 0 <= i < e.len() implies keeps_emoji_char(#[trigger] e[i]) by {
                let c = e[i];
                assert(!(c == '\u{fe0f}' || c <= '\u{1f}' || ('\u{7f}' <= c && c <= '\u{9f}') || c == '/' || c == '\\'
                    || c == ':' || c == '*' || c == '?' || c == '"' || c == '<' || c == '>' || c == '|'));
            }
            lemma_clean_emoji_identity(e);
        }
    }
}

/// Law: a cleaned emoji holds none of the rejected characters.
pub proof fn lemma_clean_emoji_is_safe(s: Seq<char>)
    ensures
        forall|i: int| 0 <= i < spec_clean_emoji(s).len() ==> keeps_emoji_char(#[trigger] spec_clean_emoji(s)[i]),
    decreases s.len(),
{
    if s.len() > 0 {
        lemma_clean_emoji_is_safe(s.drop_last());
        let prev = spec_clean_emoji(s.drop_last());
        assert forall|i: int| 0 <= i < spec_clean_emoji(s).len() implies keeps_emoji_char(
            #[trigger] spec_clean_emoji(s)[i],
        ) by {
            if i < prev.len() {
                assert(spec_clean_emoji(s)[i] == prev[i]);
            }
        }
    }
}

/// A sticker as the Telegram API lists it.
#[derive(Clone, Debug)]
pub struct Sticker {
    pub file_id: String,
    pub file_unique_id: String,
    pub emoji: Option<String>,
    pub is_animated: bool,
    pub is_video: bool,
}

/// A file to download from a sticker set.
#[derive(Clone, Debug)]
pub struct DownloadItem {
    pub file_id: String,
    pub unique_id: String,
    pub emoji: Option<String>,
    pub is_animated: bool,
    pub is_video: bool,
}

/// The characters of an optional string.
pub open spec fn option_view(o: Option<String>) -> Option<Seq<char>> {
    match o {
        Some(s) => Some(s@),
        None => None,
    }
}

/// The file name of a downloaded sticker: the cleaned emoji and `_` (when
/// some emoji remains), the file's unique id, `.` and the extension.
pub open spec fn spec_filename(emoji: Option<Seq<char>>, unique_id: Seq<char>, extension: Seq<char>) -> Seq<char> {
    let cleaned = match emoji {
        Some(e) => spec_clean_emoji(e),
        None => Seq::empty(),
    };
    let stem = if cleaned.len() == 0 { unique_id } else { cleaned + seq!['_'] + unique_id };
    stem + seq!['.'] + extension
}

/// File name for a downloaded sticker.
pub fn filename(item: &DownloadItem, extension: &str) -> (r: String)
    ensures
        r@ == spec_filename(option_view(item.emoji), item.unique_id@, extension@),
{
    let emoji = match &item.emoji {
        Some(e) => clean_emoji(e.as_str()),
        None => String::new(),
    };
    let mut out = String::new();
    if emoji.as_str().unicode_len() > 0 {
        out.append(emoji.as_str());
        push_char(&mut out, '_');
    }
    out.append(item.unique_id.as_str());
    push_char(&mut out, '.');
    out.append(extension);
    assert(out@ =~= spec_filename(option_view(item.emoji), item.unique_id@, extension@));
    out
}

/// ASCII letters and digits.
pub open spec fn is_ascii_alphanumeric(c: char) -> bool {
    ('a' <= c <= 'z') || ('A' <= c <= 'Z') || ('0' <= c <= '9')
}

/// The extension of the last component of a path, as
/// `std::path::Path::extension` gives it.
pub uninterp spec fn path_extension(path: Seq<char>) -> Option<Seq<char>>;

/// Calls `std::path::Path::new(path).extension()`. Claimed: the result is
/// the named extension.
#[verifier::external_body]
fn std_path_extension(path: &str) -> (r: Option<String>)
    ensures
        option_view(r) == path_extension(path@),
{
    match std::path::Path::new(path).extension() {
        Some(extension) => match extension.to_str() {
            Some(text) => Some(text.to_string()),
            None => None,
        },
        None => None,
    }
}

/// A usable extension of a Telegram file path: at most ten ASCII letters
/// and digits.
pub open spec fn spec_extension_from_path(path: Seq<char>) -> Option<Seq<char>> {
    match path_extension(path) {
        Some(e) => if e.len() <= 10 && forall|i: int| 0 <= i < e.len() ==> #[trigger] is_ascii_alphanumeric(e[i]) {
            Some(e)
        } else {
            None
        },
        None => None,
    }
}

/// The extension of the file Telegram stores, when it is a plain one.
pub fn extension_from_path(file_path: &str) -> (r: Option<String>)
    ensures
        option_view(r) == spec_extension_from_path(file_path@),
{
    let extension = std_path_extension(file_path)?;
    let chars = chars_of(extension.as_str());
    if chars.len() > 10 {
        return None;
    }
    let mut i: usize = 0;
    while i < chars.len()
        invariant
            chars@ == extension@,
            path_extension(file_path@) == Some(extension@),
            i <= chars@.len(),
            forall|k: int| 0 <= k < i ==> #[trigger] is_ascii_alphanumeric(chars@[k]),
        decreases chars.len() - i,
    {
        let c = chars[i];
        if !(('a' <= c && c <= 'z') || ('A' <= c && c <= 'Z') || ('0' <= c && c <= '9')) {
            assert(!is_ascii_alphanumeric(chars@[i as int]));
            assert(extension@[i as int] == chars@[i as int]);
            assert(!is_ascii_alphanumeric(extension@[i as int]));
            return None;
        }
        i = i + 1;
    }
    Some(extension)
}

/// Law: a stored file's extension is used exactly when it has at most ten
/// characters, all ASCII letters or digits.
pub proof fn lemma_extension_rule(path: Seq<char>)
    ensures
        path_extension(path) is None ==> spec_extension_from_path(path) is None,
        path_extension(path) matches Some(e) ==> spec_extension_from_path(path) == (if e.len() <= 10 && forall|i: int|
            0 <= i < e.len() ==> ('a' <= #[trigger] e[i] <= 'z') || ('A' <= e[i] <= 'Z') || ('0' <= e[i] <= '9') {
            Some(e)
        } else {
            None
        }),
{
    if let Some(e) = path_extension(path) {
        if forall|i: int| 0 <= i < e.len() ==> #[trigger] is_ascii_alphanumeric(e[i]) {
            assert forall|i: int| 0 <= i < e.len() implies ('a' <= #[trigger] e[i] <= 'z') || ('A' <= e[i] <= 'Z') || (
            '0' <= e[i] <= '9') by {
                assert(is_ascii_alphanumeric(e[i]));
            }
        }
        if forall|i: int| 0 <= i < e.len() ==> ('a' <= #[trigger] e[i] <= 'z') || ('A' <= e[i] <= 'Z') || ('0' <= e[i]
            <= '9') {
            assert forall|i: int| 0 <= i < e.len() implies #[trigger] is_ascii_alphanumeric(e[i]) by {
                assert(('a' <= e[i] <= 'z') || ('A' <= e[i] <= 'Z') || ('0' <= e[i] <= '9'));
            }
        }
    }
}

/// The extension used when the stored file has none: `tgs` for animated
/// stickers, `webm` for video stickers, `webp` otherwise.
pub open spec fn spec_fallback_extension(is_animated: bool, is_video: bool) -> Seq<char> {
    if is_animated { "tgs"@ } else if is_video { "webm"@ } else { "webp"@ }
}

/// Extension implied by the kind of sticker.
pub fn fallback_extension(item: &DownloadItem) -> (r: &'static str)
    ensures
        r@ == spec_fallback_extension(item.is_animated, item.is_video),
{
    if item.is_animated {
        "tgs"
    } else if item.is_video {
        "webm"
    } else {
        "webp"
    }
}

/// Extension of a downloaded file: the stored file's own extension when it
/// is usable, the kind's fallback otherwise.
pub fn download_extension(file_path: &str, item: &DownloadItem) -> (r: String)
    ensures
        r@ == match spec_extension_from_path(file_path@) {
            Some(e) => e,
            None => spec_fallback_extension(item.is_animated, item.is_video),
        },
{
    match extension_from_path(file_path) {
        Some(extension) => extension,
        None => String::from_str(fallback_extension(item)),
    }
}

fn str_equals_chars(s: &str, target: &[char]) -> (r: bool)
    ensures
        r == (s@ == target@),
{
    let chars = chars_of(s);
    if chars.len() != target.len() {
        return false;
    }
    let mut i: usize = 0;
    while i < chars.len()
        invariant
            chars@ == s@,
            chars@.len() == target@.len(),
            i <= chars@.len(),
            forall|k: int| 0 <= k < i ==> chars@[k] == target@[k],
        decreases chars.len() - i,
    {
        if chars[i] != target[i] {
            return false;
        }
        i = i + 1;
    }
    assert(chars@ =~= target@);
    true
}

/// The download list for a sticker set: one item per sticker, in order,
/// keeping the emoji only for custom-emoji sets.
pub open spec fn spec_download_item(sticker: Sticker, include_emoji: bool, item: DownloadItem) -> bool {
    &&& item.file_id == sticker.file_id
    &&& item.unique_id == sticker.file_unique_id
    &&& item.emoji == (if include_emoji { sticker.emoji } else { None })
    &&& item.is_animated == sticker.is_animated
    &&& item.is_video == sticker.is_video
}

/// Whether a set of this type names its files after their emoji.
pub open spec fn spec_includes_emoji(sticker_type: Seq<char>) -> bool {
    sticker_type == seq!['c', 'u', 's', 't', 'o', 'm', '_', 'e', 'm', 'o', 'j', 'i']
}

/// Law: a set keeps its emoji in file names exactly when its type is
/// `custom_emoji`.
pub proof fn lemma_emoji_only_for_custom_emoji(sticker_type: Seq<char>)
    ensures
        spec_includes_emoji(sticker_type) <==> sticker_type == "custom_emoji"@,
{
    reveal_strlit("custom_emoji");
    assert("custom_emoji"@ =~= seq!['c', 'u', 's', 't', 'o', 'm', '_', 'e', 'm', 'o', 'j', 'i']);
}

/// Turns the stickers of a set of type `sticker_type` into the files to
/// download; an empty set is refused.
pub fn download_items(stickers: Vec<Sticker>, sticker_type: &str) -> (r: Result<Vec<DownloadItem>, TelegramError>)
    ensures
        stickers@.len() == 0 <==> r is Err,
        r is Err ==> r == Err::<Vec<DownloadItem>, TelegramError>(TelegramError::EmptyStickerSet),
        r matches Ok(items) ==> items@.len() == stickers@.len() && forall|i: int|
            0 <= i < items@.len() ==> spec_download_item(
                stickers@[i],
                spec_includes_emoji(sticker_type@),
                #[trigger] items@[i],
            ),
{
    if stickers.len() == 0 {
        return Err(TelegramError::EmptyStickerSet);
    }
    let custom_emoji = ['c', 'u', 's', 't', 'o', 'm', '_', 'e', 'm', 'o', 'j', 'i'];
    assert(custom_emoji@ =~= seq!['c', 'u', 's', 't', 'o', 'm', '_', 'e', 'm', 'o', 'j', 'i']);
    let include_emoji = str_equals_chars(sticker_type, custom_emoji.as_slice());
    let ghost initial = stickers@;
    let mut items: Vec<DownloadItem> = Vec::new();
    for sticker in it: stickers
        invariant
            it.seq() == initial,
            include_emoji == spec_includes_emoji(sticker_type@),
            items@.len() == it.index(),
            forall|i: int|
                0 <= i < items@.len() ==> spec_download_item(initial[i], include_emoji, #[trigger] items@[i]),
    {
        let emoji = if include_emoji { sticker.emoji } else { None };
        items.push(DownloadItem {
            file_id: sticker.file_id,
            unique_id: sticker.file_unique_id,
            emoji,
            is_animated: sticker.is_animated,
            is_video: sticker.is_video,
        });
    }
    Ok(items)
}

/// Number of download workers: the thread count, capped at the file count.
pub fn download_worker_count(threads: usize, file_count: usize) -> (r: usize)
    ensures
        r == if threads < file_count { threads } else { file_count },
{
    if threads < file_count { threads } else { file_count }
}

/// What to download and with how many workers.
#[derive(Clone, Debug)]
pub struct TelegramDownloadOptions {
    pub link_or_name: String,
    pub output_directory: std::path::PathBuf,
    pub threads: usize,
}

/// What a finished download fetched.
#[derive(Clone, Debug)]
pub struct TelegramDownloadReport {
    pub set_name: String,
    pub title: String,
    pub files: usize,
    pub output_directory: std::path::PathBuf,
}

#[verifier::external_type_specification]
#[verifier::external_body]
pub struct ExPathBuf(std::path::PathBuf);

/// `PathBuf::clone`, which the derived `Clone` impls above call. Nothing is
/// claimed of the copy.
pub assume_specification[ <std::path::PathBuf as Clone>::clone ](path: &std::path::PathBuf) -> std::path::PathBuf;

/// The checks made before any request: at least one worker, and a
/// well-formed set name or pack link. Gives the set name.
pub fn check_download_request(options: &TelegramDownloadOptions) -> (r: Result<String, TelegramError>)
    ensures
        string_result_view(r) == (if options.threads == 0 {
            Err(TelegramError::NoThreads)
        } else {
            spec_parse_sticker_set_name(options.link_or_name@)
        }),
{
    if options.threads == 0 {
        return Err(TelegramError::NoThreads);
    }
    parse_sticker_set_name(options.link_or_name.as_str())
}

/// Why a Telegram API answer carries no result.
pub enum ApiFailure {
    /// The API refused the request, with its description (or
    /// `no description`).
    Rejected(String),
    /// The API accepted the request but sent no result.
    NoResult,
}

/// Reads an API answer: its result when `ok` holds and a result came,
/// otherwise why not.
pub fn api_outcome<T>(ok: bool, result: Option<T>, description: Option<String>) -> (r: Result<T, ApiFailure>)
    ensures
        !ok ==> (r matches Err(ApiFailure::Rejected(text)) && text@ == match description {
            Some(d) => d@,
            None => "no description"@,
        }),
        ok ==> match result {
            Some(v) => r == Ok::<T, ApiFailure>(v),
            None => r matches Err(ApiFailure::NoResult),
        },
{
    if !ok {
        let text = match description {
            Some(d) => d,
            None => String::from_str("no description"),
        };
        return Err(ApiFailure::Rejected(text));
    }
    match result {
        Some(v) => Ok(v),
        None => Err(ApiFailure::NoResult),
    }
}


/// The bot token to use: the one given on the command line, else the one
/// kept in the system credential store.
pub fn resolve_bot_token(given: Option<String>, stored: Option<String>) -> (r: Result<String, TelegramError>)
    ensures
        r == match (given, stored) {
            (Some(token), _) => Ok::<String, TelegramError>(token),
            (None, Some(token)) => Ok(token),
            (None, None) => Err(TelegramError::NoBotToken),
        },
{
    match given {
        Some(token) => Ok(token),
        None => match stored {
            Some(token) => Ok(token),
            None => Err(TelegramError::NoBotToken),
        },
    }
}

} // verus!
