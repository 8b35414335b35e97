use crate::text::{
    chars_of, find_char, first_index, lemma_first_index_bounds, same_chars, slice_chars,
    split_chars, split_on, string_of, views,
};
use regex::Regex;
use vstd::prelude::*;

verus! {

/// One launchable application, as read from a descriptor file.
#[derive(Clone, Debug)]
pub struct DesktopApp {
    pub name: String,
    pub command: String,
}

/// The mathematical value of a `DesktopApp`.
pub struct AppView {
    pub name: Seq<char>,
    pub command: Seq<char>,
}

impl View for DesktopApp {
    type V = AppView;

    open spec fn view(&self) -> AppView {
        AppView { name: self.name@, command: self.command@ }
    }
}

pub open spec fn app_view(r: Option<DesktopApp>) -> Option<AppView> {
    match r {
        Some(a) => Some(a@),
        None => None,
    }
}

/// A placeholder code letter, matched without regard to case (the Kelvin
/// sign folds to `k`).
pub open spec fn is_placeholder_code(c: char) -> bool {
    c == 'f' || c == 'F' || c == 'u' || c == 'U' || c == 'k' || c == 'K' || c == '\u{212A}'
        || c == 'c' || c == 'C' || c == 'i' || c == 'I'
}

/// `s` holds a space, `%` and a placeholder code at `i`.
pub open spec fn placeholder_at(s: Seq<char>, i: int) -> bool {
    0 <= i && i + 3 <= s.len() && s[i] == ' ' && s[i + 1] == '%' && is_placeholder_code(s[i + 2])
}

pub open spec fn has_placeholder(s: Seq<char>) -> bool {
    exists|i: int| placeholder_at(s, i)
}

/// `s` with every placeholder token removed, scanning from the left and
/// resuming after each removed token.
pub open spec fn strip_placeholders(s: Seq<char>) -> Seq<char>
    decreases s.len(),
{
    if s.len() == 0 {
        s
    } else if placeholder_at(s, 0) {
        strip_placeholders(s.skip(3))
    } else {
        seq![s[0]] + strip_placeholders(s.skip(1))
    }
}

proof fn lemma_strip_unchanged(s: Seq<char>)
    requires
        !has_placeholder(s),
    ensures
        strip_placeholders(s) == s,
    decreases s.len(),
{
    if s.len() > 0 {
        assert(!placeholder_at(s, 0));
        let t = s.skip(1);
        assert forall|i: int| !placeholder_at(t, i) by {
            if placeholder_at(t, i) {
                assert(placeholder_at(s, i + 1));
            }
        }
        lemma_strip_unchanged(t);
        assert(seq![s[0]] + t =~= s);
    }
}

proof fn lemma_strip_shortens(s: Seq<char>)
    ensures
        strip_placeholders(s).len() <= s.len(),
        has_placeholder(s) ==> strip_placeholders(s).len() < s.len(),
    decreases s.len(),
{
    if s.len() > 0 {
        if placeholder_at(s, 0) {
            lemma_strip_shortens(s.skip(3));
        } else {
            let t = s.skip(1);
            lemma_strip_shortens(t);
            if has_placeholder(s) {
                let i = choose|i: int| placeholder_at(s, i);
                assert(placeholder_at(t, i - 1));
            }
        }
    }
}

/// `s` with placeholder tokens removed pass after pass, until a pass
/// leaves no token behind (a pass can form a new token from the characters
/// around a removed one).
pub open spec fn normalize_spec(s: Seq<char>) -> Seq<char>
    decreases s.len(),
{
    let t = strip_placeholders(s);
    if has_placeholder(t) && t.len() < s.len() {
        normalize_spec(t)
    } else {
        t
    }
}

/// When one pass leaves a token behind, it removed one, so it shortened `s`.
proof fn lemma_strip_leftover_shortens(s: Seq<char>)
    requires
        has_placeholder(strip_placeholders(s)),
    ensures
        strip_placeholders(s).len() < s.len(),
{
    lemma_strip_shortens(s);
    if !has_placeholder(s) {
        lemma_strip_unchanged(s);
    }
}

/// A normalized command holds no placeholder token.
pub proof fn lemma_normalized_is_clean(s: Seq<char>)
    ensures
        !has_placeholder(normalize_spec(s)),
    decreases s.len(),
{
    let t = strip_placeholders(s);
    if has_placeholder(t) {
        lemma_strip_leftover_shortens(s);
        lemma_normalized_is_clean(t);
    }
}

/// Normalizing a command a second time leaves it unchanged.
pub proof fn lemma_normalize_idempotent(s: Seq<char>)
    ensures
        normalize_spec(normalize_spec(s)) == normalize_spec(s),
{
    let r = normalize_spec(s);
    lemma_normalized_is_clean(s);
    lemma_strip_unchanged(r);
}

/// The regular expression for a placeholder token.
pub open spec fn placeholder_pattern() -> Seq<char> {
    "(?i) %[ufkci]"@
}

/// Relies on `Regex::new` and `Regex::replace_all` with an empty
/// replacement: for the placeholder pattern, which compiles, the result is
/// the text with every leftmost non-overlapping match removed.
#[verifier::external_body]
fn remove_matches(pattern: &str, text: &str) -> (r: Option<String>)
    ensures
        pattern@ == placeholder_pattern() ==> r is Some && r->0@ == strip_placeholders(text@),
{
    match Regex::new(pattern) {
        Ok(re) => Some(re.replace_all(text, "").into_owned()),
        Err(_) => None,
    }
}

/// One left-to-right pass of placeholder removal.
fn strip_once(text: &str) -> (r: String)
    ensures
        r@ == strip_placeholders(text@),
{
    let pattern = "(?i) %[ufkci]";
    let stripped = remove_matches(pattern, text);
    match stripped {
        Some(s) => s,
        None => String::new(),
    }
}

/// Removes every placeholder token (a space, `%` and one of `f u k c i` in
/// either case) from a command template, repeating until none is left.
pub fn normalize_command(template: &str) -> (r: String)
    ensures
        r@ == normalize_spec(template@),
        !has_placeholder(r@),
{
    let mut cur = strip_once(template);
    let ghost mut prev = template@;
    let mut next = strip_once(cur.as_str());
    while next.as_str().unicode_len() < cur.as_str().unicode_len()
        invariant
            cur@ == strip_placeholders(prev),
            next@ == strip_placeholders(cur@),
            normalize_spec(template@) == normalize_spec(prev),
        decreases cur@.len(),
    {
        proof {
            if !has_placeholder(cur@) {
                lemma_strip_unchanged(cur@);
            }
            lemma_strip_leftover_shortens(prev);
            prev = cur@;
        }
        cur = next;
        next = strip_once(cur.as_str());
    }
    proof {
        lemma_strip_shortens(cur@);
    }
    cur
}

/// Line `h` is a group header `[Desktop Entry]` that starts a block: it is
/// the first line or follows a blank one.
pub open spec fn header_at(ls: Seq<Seq<char>>, h: int) -> bool {
    0 <= h < ls.len() && ls[h] == "[Desktop Entry]"@ && (h == 0 || ls[h - 1].len() == 0)
}

/// The first line at or after `from` that starts the `[Desktop Entry]` block.
pub open spec fn first_header(ls: Seq<Seq<char>>, from: int) -> Option<int>
    decreases ls.len() - from,
{
    if from < 0 || from >= ls.len() {
        None
    } else if header_at(ls, from) {
        Some(from)
    } else {
        first_header(ls, from + 1)
    }
}

/// The first blank line at or after `from`, or `ls.len()`: where a block ends.
pub open spec fn block_end(ls: Seq<Seq<char>>, from: int) -> int
    decreases ls.len() - from,
{
    if from < 0 || from >= ls.len() {
        ls.len() as int
    } else if ls[from].len() == 0 {
        from
    } else {
        block_end(ls, from + 1)
    }
}

/// A line without its trailing carriage return, which belongs to the `\n`
/// line ending that follows it.
pub open spec fn trim_cr(l: Seq<char>) -> Seq<char> {
    if l.len() > 0 && l.last() == '\r' {
        l.drop_last()
    } else {
        l
    }
}

/// Each piece but the last is followed by a line feed, so its trailing
/// carriage return is dropped; the last piece is kept as it is.
pub open spec fn ended_lines(pieces: Seq<Seq<char>>) -> Seq<Seq<char>> {
    Seq::new(
        pieces.len(),
        |i: int|
            if i + 1 < pieces.len() {
                trim_cr(pieces[i])
            } else {
                pieces[i]
            },
    )
}

/// The lines of a text: split at each `\n`, a `\r` right before a `\n`
/// dropped (a bare `\r` at the very end stays).
pub open spec fn lines_of(text: Seq<char>) -> Seq<Seq<char>> {
    ended_lines(split_on(text, '\n'))
}

fn trim_line_ends(ls: &Vec<Vec<char>>) -> (r: Vec<Vec<char>>)
    ensures
        views(r@) == ended_lines(views(ls@)),
{
    let ghost target = ended_lines(views(ls@));
    let mut r: Vec<Vec<char>> = Vec::new();
    let mut i: usize = 0;
    while i < ls.len()
        invariant
            i <= ls.len(),
            target == ended_lines(views(ls@)),
            views(r@) == target.take(i as int),
        decreases ls.len() - i,
    {
        let line = &ls[i];
        let n = line.len();
        let end = if i + 1 < ls.len() && n > 0 && line[n - 1] == '\r' {
            n - 1
        } else {
            n
        };
        let trimmed = slice_chars(line, 0, end);
        assert(trimmed@ =~= target[i as int]);
        let ghost prev = views(r@);
        let ghost tv = trimmed@;
        r.push(trimmed);
        assert(views(r@) =~= prev.push(tv));
        i = i + 1;
        assert(views(r@) =~= target.take(i as int));
    }
    assert(views(r@) =~= target);
    r
}

/// The lines of the `[Desktop Entry]` block after its header, if the text
/// has such a block.
pub open spec fn entry_lines(text: Seq<char>) -> Option<Seq<Seq<char>>> {
    let ls = lines_of(text);
    match first_header(ls, 0) {
        Some(h) => Some(ls.subrange(h + 1, block_end(ls, h + 1))),
        None => None,
    }
}

/// Where the first `=` of a line stands (the line's length if it has none).
pub open spec fn eq_index(l: Seq<char>) -> int {
    first_index(l, '=', 0)
}

/// The line is a `key=value` pair with the given key.
pub open spec fn has_key(l: Seq<char>, key: Seq<char>) -> bool {
    eq_index(l) < l.len() && l.subrange(0, eq_index(l)) == key
}

/// What follows the first `=` of a line.
pub open spec fn value_of(l: Seq<char>) -> Seq<char> {
    l.subrange(eq_index(l) + 1, l.len() as int)
}

/// The value of the first line at or after `i` whose key is `key`.
pub open spec fn lookup(body: Seq<Seq<char>>, key: Seq<char>, i: int) -> Option<Seq<char>>
    decreases body.len() - i,
{
    if i < 0 || i >= body.len() {
        None
    } else if has_key(body[i], key) {
        Some(value_of(body[i]))
    } else {
        lookup(body, key, i + 1)
    }
}

/// One of the lines is exactly `line`.
pub open spec fn holds_line(body: Seq<Seq<char>>, line: Seq<char>) -> bool {
    exists|k: int| 0 <= k < body.len() && body[k] == line
}

/// The block holds the line `NoDisplay=true`.
pub open spec fn is_hidden(body: Seq<Seq<char>>) -> bool {
    holds_line(body, "NoDisplay=true"@)
}

/// The record that a descriptor text yields, if any.
pub open spec fn parse_spec(text: Seq<char>) -> Option<AppView> {
    match entry_lines(text) {
        None => None,
        Some(body) => {
            if is_hidden(body) {
                None
            } else {
                match (lookup(body, "Name"@, 0), lookup(body, "Exec"@, 0)) {
                    (Some(n), Some(e)) => {
                        let command = normalize_spec(e);
                        if n.len() > 0 && command.len() > 0 {
                            Some(AppView { name: n, command })
                        } else {
                            None
                        }
                    },
                    _ => None,
                }
            }
        },
    }
}

fn find_header(ls: &Vec<Vec<char>>, header: &Vec<char>) -> (r: Option<usize>)
    requires
        header@ == "[Desktop Entry]"@,
    ensures
        match r {
            Some(h) => h < ls.len() && first_header(views(ls@), 0) == Some(h as int),
            None => first_header(views(ls@), 0) is None,
        },
{
    let ghost v = views(ls@);
    let mut i: usize = 0;
    while i < ls.len()
        invariant
            v == views(ls@),
            header@ == "[Desktop Entry]"@,
            i <= ls.len(),
            first_header(v, 0) == first_header(v, i as int),
        decreases ls.len() - i,
    {
        assert(v[i as int] == ls@[i as int]@);
        assert(v.len() == ls.len());
        if i > 0 {
            assert(v[i - 1] == ls@[i - 1]@);
        }
        if same_chars(&ls[i], header) && (i == 0 || ls[i - 1].len() == 0) {
            return Some(i);
        }
        i = i + 1;
    }
    None
}

fn find_block_end(ls: &Vec<Vec<char>>, from: usize) -> (r: usize)
    requires
        from <= ls.len(),
    ensures
        r == block_end(views(ls@), from as int),
        from <= r <= ls.len(),
{
    let ghost v = views(ls@);
    let mut i: usize = from;
    while i < ls.len() && ls[i].len() != 0
        invariant
            v == views(ls@),
            from <= i <= ls.len(),
            block_end(v, from as int) == block_end(v, i as int),
        decreases ls.len() - i,
    {
        assert(v[i as int] == ls@[i as int]@);
        i = i + 1;
    }
    i
}

fn contains_line(ls: &Vec<Vec<char>>, from: usize, to: usize, line: &Vec<char>) -> (r: bool)
    requires
        from <= to <= ls.len(),
    ensures
        r == holds_line(views(ls@).subrange(from as int, to as int), line@),
{
    let ghost body = views(ls@).subrange(from as int, to as int);
    let mut k: usize = from;
    while k < to
        invariant
            from <= k <= to <= ls.len(),
            body == views(ls@).subrange(from as int, to as int),
            forall|j: int| 0 <= j < k - from ==> body[j] != line@,
        decreases to - k,
    {
        if same_chars(&ls[k], line) {
            assert(body[k - from] == line@);
            return true;
        }
        k = k + 1;
    }
    false
}

fn lookup_value(ls: &Vec<Vec<char>>, from: usize, to: usize, key: &Vec<char>) -> (r: Option<Vec<char>>)
    requires
        from <= to <= ls.len(),
    ensures
        match r {
            Some(v) => lookup(views(ls@).subrange(from as int, to as int), key@, 0) == Some(v@),
            None => lookup(views(ls@).subrange(from as int, to as int), key@, 0) is None,
        },
{
    let ghost body = views(ls@).subrange(from as int, to as int);
    let mut k: usize = from;
    while k < to
        invariant
            from <= k <= to <= ls.len(),
            body == views(ls@).subrange(from as int, to as int),
            lookup(body, key@, 0) == lookup(body, key@, k - from),
        decreases to - k,
    {
        let line = &ls[k];
        assert(body[k - from] == line@);
        let e = find_char(line, '=', 0);
        proof {
            lemma_first_index_bounds(line@, '=', 0);
        }
        if e < line.len() {
            let found = slice_chars(line, 0, e);
            if same_chars(&found, key) {
                return Some(slice_chars(line, e + 1, line.len()));
            }
        }
        k = k + 1;
    }
    None
}

/// Reads one descriptor text: the record of its `[Desktop Entry]` block, or
/// nothing when the block is missing, hidden, lacks `Name` or `Exec`, or
/// either value is empty (for `Exec`, once placeholders are stripped).
pub fn parse_desktop_file(file: String) -> (r: Option<DesktopApp>)
    ensures
        app_view(r) == parse_spec(file@),
{
    let chars = chars_of(file.as_str());
    let lines = trim_line_ends(&split_chars(&chars, '\n'));
    let header = chars_of("[Desktop Entry]");
    let start = find_header(&lines, &header);
    let h = match start {
        Some(h) => h,
        None => {
            return None;
        },
    };
    let end = find_block_end(&lines, h + 1);
    let ghost body = views(lines@).subrange(h + 1, end as int);
    assert(entry_lines(file@) == Some(body));
    if contains_line(&lines, h + 1, end, &chars_of("NoDisplay=true")) {
        return None;
    }
    let name = lookup_value(&lines, h + 1, end, &chars_of("Name"));
    let template = lookup_value(&lines, h + 1, end, &chars_of("Exec"));
    match (name, template) {
        (Some(n), Some(t)) => {
            let command = normalize_command(string_of(&t).as_str());
            if n.len() > 0 && !command.as_str().is_empty() {
                Some(DesktopApp { name: string_of(&n), command })
            } else {
                None
            }
        },
        _ => None,
    }
}

/// A descriptor whose `[Desktop Entry]` block holds the line
/// `NoDisplay=true` yields no record, whatever else it holds.
pub proof fn lemma_hidden_yields_nothing(text: Seq<char>)
    requires
        entry_lines(text) is Some,
        is_hidden(entry_lines(text)->0),
    ensures
        parse_spec(text) is None,
{
}

/// A descriptor whose `[Desktop Entry]` block lacks `Name` or lacks `Exec`
/// yields no record; so does one without such a block.
pub proof fn lemma_missing_field_yields_nothing(text: Seq<char>)
    requires
        entry_lines(text) is None || lookup(entry_lines(text)->0, "Name"@, 0) is None || lookup(
            entry_lines(text)->0,
            "Exec"@,
            0,
        ) is None,
    ensures
        parse_spec(text) is None,
{
}

} // verus!
