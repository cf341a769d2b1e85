//! Files of environment variables: `KEY=VALUE` lines, an optional `export`, comments
//! behind `#`, and optional quotes.
use vstd::prelude::*;
use vstd::slice::slice_subrange;
use vstd::string::*;

use crate::text;
use crate::text::{find, from_chars, lines, strip_prefix, to_chars, trim, write_decimal};

verus! {

/// What one line of an environment file says.
pub enum EnvLine {
    /// It is empty, or a comment.
    Nothing,
    /// It sets a variable to a value.
    Pair(Seq<char>, Seq<char>),
    Invalid,
}

/// A value without the quotes around it.
pub open spec fn unquoted(v: Seq<char>) -> Seq<char> {
    if v.len() >= 2 && ((v[0] == '"' && v.last() == '"') || (v[0] == '\'' && v.last() == '\'')) {
        v.subrange(1, v.len() - 1)
    } else {
        v
    }
}

/// A line without `export` in front.
pub open spec fn without_export(line: Seq<char>) -> Seq<char> {
    match text::after_prefix(line, "export "@) {
        Some(rest) => text::trimmed(rest),
        None => line,
    }
}

/// What `KEY=VALUE` says.
pub open spec fn assignment(body: Seq<char>) -> EnvLine {
    let n = text::first_index(body, '=');
    let key = text::trimmed(body.take(n));
    if n >= body.len() || key.len() == 0 {
        EnvLine::Invalid
    } else {
        EnvLine::Pair(key, unquoted(text::trimmed(body.skip(n + 1))))
    }
}

/// What a line says.
pub open spec fn env_line(raw: Seq<char>) -> EnvLine {
    let line = text::trimmed(raw);
    if line.len() == 0 || line[0] == '#' {
        EnvLine::Nothing
    } else {
        assignment(without_export(line))
    }
}

/// The variables that lines set, in order.
pub open spec fn env_pairs(lines: Seq<Seq<char>>) -> Seq<(Seq<char>, Seq<char>)>
    decreases lines.len(),
{
    if lines.len() == 0 {
        Seq::empty()
    } else {
        let before = env_pairs(lines.drop_last());
        match env_line(lines.last()) {
            EnvLine::Pair(key, value) => before.push((key, value)),
            _ => before,
        }
    }
}

/// The texts of pairs of strings.
pub open spec fn pair_texts(v: Seq<(String, String)>) -> Seq<(Seq<char>, Seq<char>)> {
    v.map_values(|p: (String, String)| (p.0@, p.1@))
}

/// A line that is neither empty, nor a comment, nor an assignment.
#[derive(Debug)]
pub struct EnvError {
    /// The number of the line, from one.
    pub line: usize,
    /// The file.
    pub path: String,
}

impl EnvError {
    /// What is said to the user.
    pub fn message(&self) -> (r: String)
        ensures
            r@ == "Invalid env line "@ + text::decimal(self.line as nat) + " in "@ + self.path@,
    {
        "Invalid env line ".to_owned().concat(write_decimal(self.line as u64).as_str()).concat(
            " in ",
        ).concat(self.path.as_str())
    }
}

/// Takes the quotes off a value.
fn unquote(v: &[char]) -> (r: &[char])
    ensures
        r@ == unquoted(v@),
{
    if v.len() >= 2 {
        let first: char = v[0];
        let last: char = v[v.len() - 1];
        if (first == '"' && last == '"') || (first == '\'' && last == '\'') {
            return slice_subrange(v, 1, v.len() - 1);
        }
    }
    v
}

/// What a line was found to say.
enum Found {
    Nothing,
    Pair(String, String),
    Invalid,
}

/// Reads a line.
fn read_line(raw: &[char]) -> (r: Found)
    ensures
        match r {
            Found::Nothing => env_line(raw@) == EnvLine::Nothing,
            Found::Pair(k, v) => env_line(raw@) == EnvLine::Pair(k@, v@),
            Found::Invalid => env_line(raw@) == EnvLine::Invalid,
        },
{
    let line = trim(raw);
    if line.len() == 0 || line[0] == '#' {
        return Found::Nothing;
    }
    let body = match strip_prefix(line, "export ") {
        Some(rest) => trim(rest),
        None => line,
    };
    let n: usize = find(body, '=');
    if n == body.len() {
        return Found::Invalid;
    }
    let key = trim(slice_subrange(body, 0, n));
    assert(body@.subrange(0, n as int) == body@.take(n as int));
    if key.len() == 0 {
        return Found::Invalid;
    }
    let value = unquote(trim(slice_subrange(body, n + 1, body.len())));
    assert(body@.subrange(n + 1, body@.len() as int) == body@.skip(n + 1));
    Found::Pair(from_chars(key), from_chars(value))
}

/// The variables that an environment file sets, in order. The first line that cannot be
/// understood is an error.
pub fn load_env_file(path: &str, content: &str) -> (r: Result<Vec<(String, String)>, EnvError>)
    ensures
        match r {
            Ok(pairs) => {
                let all = text::lines_of(content@);
                &&& pair_texts(pairs@) == env_pairs(all)
                &&& forall|i: int|
                    0 <= i < all.len() ==> env_line(#[trigger] all[i]) != EnvLine::Invalid
            },
            Err(e) => {
                let all = text::lines_of(content@);
                &&& 1 <= e.line <= all.len()
                &&& env_line(all[e.line - 1]) == EnvLine::Invalid
                &&& forall|i: int|
                    0 <= i < e.line - 1 ==> env_line(#[trigger] all[i]) != EnvLine::Invalid
                &&& e.path@ == path@
            },
        },
{
    let chars = to_chars(content);
    let all = lines(chars.as_slice());
    let ghost spec_all = text::lines_of(content@);
    let mut out: Vec<(String, String)> = Vec::new();
    let mut i: usize = 0;
    assert(pair_texts(out@) =~= env_pairs(spec_all.take(0)));
    while i < all.len()
        invariant
            i <= all@.len(),
            all@.map_values(|l: &[char]| l@) == spec_all,
            spec_all == text::lines_of(content@),
            pair_texts(out@) == env_pairs(spec_all.take(i as int)),
            forall|k: int| 0 <= k < i ==> env_line(#[trigger] spec_all[k]) != EnvLine::Invalid,
        decreases all@.len() - i,
    {
        assert(spec_all.take(i + 1).drop_last() == spec_all.take(i as int));
        assert(spec_all[i as int] == all@[i as int]@);
        let ghost before = out@;
        match read_line(all[i]) {
            Found::Nothing => {},
            Found::Pair(k, v) => {
                let ghost pair = (k@, v@);
                out.push((k, v));
                assert(pair_texts(out@) =~= pair_texts(before).push(pair));
            },
            Found::Invalid => {
                return Err(EnvError { line: i + 1, path: path.to_owned() });
            },
        }
        i += 1;
    }
    assert(spec_all.take(i as int) == spec_all);
    Ok(out)
}

/// A text that neither begins nor ends with white space is its own trim.
proof fn trimmed_is_itself(s: Seq<char>)
    requires
        s.len() > 0 ==> !text::is_space(s[0]) && !text::is_space(s.last()),
    ensures
        text::trimmed(s) == s,
{
}

/// What trimming leaves neither begins nor ends with white space.
proof fn trimmed_is_tight(s: Seq<char>)
    ensures
        text::trimmed(s).len() > 0 ==> !text::is_space(text::trimmed(s)[0]) && !text::is_space(
            text::trimmed(s).last(),
        ),
{
    trim_start_is_tight(s);
    trim_end_is_tight(text::trim_start(s));
}

proof fn trim_start_is_tight(s: Seq<char>)
    ensures
        text::trim_start(s).len() > 0 ==> !text::is_space(text::trim_start(s)[0]),
    decreases s.len(),
{
    if s.len() > 0 && text::is_space(s[0]) {
        trim_start_is_tight(s.drop_first());
    }
}

proof fn trim_end_is_tight(s: Seq<char>)
    ensures
        text::trim_end(s).len() > 0 ==> !text::is_space(text::trim_end(s).last()) && text::trim_end(s)[0] == s[0],
        text::trim_end(s).len() <= s.len(),
    decreases s.len(),
{
    if s.len() > 0 && text::is_space(s.last()) {
        trim_end_is_tight(s.drop_last());
    }
}

/// A name that a line can set as it stands.
pub open spec fn plain_key(key: Seq<char>) -> bool {
    &&& key.len() > 0
    &&& text::trimmed(key) == key
    &&& key[0] != '#'
    &&& !key.contains('=')
    &&& !"export "@.is_prefix_of(key)
}

/// A line made of a plain name, an equals sign and a value sets the name to what the value
/// is without white space and quotes around it. Further equals signs belong to the value.
pub proof fn assignment_reads_back(key: Seq<char>, value: Seq<char>)
    requires
        plain_key(key),
    ensures
        env_line(key + seq!['='] + value) == EnvLine::Pair(key, unquoted(text::trimmed(value))),
        env_line("export "@ + key + seq!['='] + value) == EnvLine::Pair(
            key,
            unquoted(text::trimmed(value)),
        ),
{
    let body = key + seq!['='] + value;
    trimmed_is_tight(key);
    trimmed_of_assignment(key, value);
    let line = text::trimmed(body);
    let v = text::trim_end(value);
    assert(line == key + seq!['='] + v);
    assert forall|k: int| 0 <= k < key.len() implies line[k] != '=' by {
        assert(line[k] == key[k]);
        assert(key.contains(key[k]));
    }
    text::first_index_is(line, '=', key.len() as int);
    assert(line.take(key.len() as int) =~= key);
    assert(line.skip(key.len() as int + 1) =~= v);
    trim_end_then_trim(value);
    reveal_strlit("export ");
    if "export "@.is_prefix_of(line) {
        assert forall|k: int| 0 <= k < 7 implies line[k] != '=' by {
            assert("export "@[k] == line.subrange(0, 7)[k]);
        }
        assert(key.len() >= 7) by {
            if key.len() < 7 {
                assert(line[key.len() as int] == '=');
            }
        }
        assert(key.subrange(0, 7) =~= line.subrange(0, 7));
        assert(false);
    }
    assert(without_export(line) == line);
    // the same with `export` in front
    let full = "export "@ + key + seq!['='] + value;
    let key2 = "export "@ + key;
    assert(full =~= key2 + seq!['='] + value);
    trimmed_of_assignment(key2, value);
    let line2 = text::trimmed(full);
    assert(line2 == key2 + seq!['='] + v);
    assert(line2.subrange(0, 7) =~= "export "@);
    assert(line2.skip(7) =~= key + seq!['='] + v);
    assert(key + seq!['='] + v == line);
    trimmed_of_assignment(key, v);
    trim_end_twice(value);
    assert(text::trimmed(line) == line);
}

proof fn trim_end_after(a: Seq<char>, value: Seq<char>)
    requires
        a.len() > 0,
        !text::is_space(a.last()),
    ensures
        text::trim_end(a + value) == a + text::trim_end(value),
    decreases value.len(),
{
    if value.len() == 0 {
        assert(a + value =~= a);
        assert(text::trim_end(value) =~= value);
    } else {
        assert((a + value).last() == value.last());
        if text::is_space(value.last()) {
            assert((a + value).drop_last() =~= a + value.drop_last());
            trim_end_after(a, value.drop_last());
        }
    }
}

proof fn trimmed_of_assignment(key: Seq<char>, value: Seq<char>)
    requires
        key.len() > 0,
        !text::is_space(key[0]),
    ensures
        text::trimmed(key + seq!['='] + value) == key + seq!['='] + text::trim_end(value),
{
    let a = key + seq!['='];
    assert((a + value)[0] == key[0]);
    assert(a.last() == '=');
    trim_end_after(a, value);
}

proof fn trim_end_then_trim(value: Seq<char>)
    ensures
        text::trimmed(text::trim_end(value)) == text::trimmed(value),
    decreases value.len(),
{
    if value.len() > 0 && text::is_space(value.last()) {
        trim_end_then_trim(value.drop_last());
        trim_drops_last(value);
    }
}

proof fn trim_drops_last(s: Seq<char>)
    requires
        s.len() > 0,
        text::is_space(s.last()),
    ensures
        text::trimmed(s) == text::trimmed(s.drop_last()),
    decreases s.len(),
{
    if text::is_space(s[0]) {
        if s.len() > 1 {
            trim_drops_last(s.drop_first());
            assert(s.drop_first().drop_last() =~= s.drop_last().drop_first());
            assert(s.drop_last()[0] == s[0]);
            assert(s.drop_first().last() == s.last());
        } else {
            assert(s.drop_first() =~= s.drop_last());
        }
    }
}

proof fn trim_end_twice(value: Seq<char>)
    ensures
        text::trim_end(text::trim_end(value)) == text::trim_end(value),
    decreases value.len(),
{
    if value.len() > 0 && text::is_space(value.last()) {
        trim_end_twice(value.drop_last());
    }
}

/// A value in quotes comes out as it stands between them, white space and all.
pub proof fn quoted_value_is_kept(value: Seq<char>, quote: char)
    requires
        quote == '"' || quote == '\'',
    ensures
        unquoted(text::trimmed(seq![quote] + value + seq![quote])) == value,
{
    let v = seq![quote] + value + seq![quote];
    trimmed_is_itself(v);
    assert(v.subrange(1, v.len() - 1) =~= value);
}

/// Lines that are empty, white space alone, or a comment set nothing.
pub proof fn comments_set_nothing(indent: Seq<char>, comment: Seq<char>)
    requires
        forall|i: int| 0 <= i < indent.len() ==> text::is_space(#[trigger] indent[i]),
    ensures
        env_line(indent) == EnvLine::Nothing,
        env_line(indent + seq!['#'] + comment) == EnvLine::Nothing,
    decreases indent.len(),
{
    let line = indent + seq!['#'] + comment;
    if indent.len() == 0 {
        assert(line[0] == '#');
        trim_end_is_tight(line);
        assert(seq!['#'] + comment =~= line);
        trim_end_after(seq!['#'], comment);
        assert(text::trimmed(line)[0] == '#');
    } else {
        comments_set_nothing(indent.drop_first(), comment);
        assert(line.drop_first() =~= indent.drop_first() + seq!['#'] + comment);
        assert(line[0] == indent[0]);
    }
}

/// Quotes come off a value exactly where it begins and ends with the same kind of quote. Any
/// other value stays as it is, character for character.
pub proof fn only_quotes_come_off(v: Seq<char>, w: Seq<char>, quote: char)
    ensures
        !(v.len() >= 2 && v[0] == v.last() && (v[0] == '"' || v[0] == '\'')) ==> unquoted(v) == v,
        quote == '"' || quote == '\'' ==> unquoted(seq![quote] + w + seq![quote]) == w,
{
    let t = seq![quote] + w + seq![quote];
    assert(t.last() == quote);
    assert(t.subrange(1, t.len() - 1) =~= w);
}

proof fn assignment_of(key: Seq<char>, gap: Seq<char>, lead: Seq<char>, value: Seq<char>)
    requires
        text::tight(key),
        !key.contains('='),
        text::blank(gap),
        text::blank(lead),
        text::tight(value),
    ensures
        key.len() > 0 ==> assignment(key + gap + seq!['='] + lead + value) == EnvLine::Pair(
            key,
            unquoted(value),
        ),
        key.len() == 0 ==> assignment(key + gap + seq!['='] + lead + value) == EnvLine::Invalid,
{
    let body = key + gap + seq!['='] + lead + value;
    let n = (key.len() + gap.len()) as int;
    let none = Seq::<char>::empty();
    assert forall|k: int| 0 <= k < n implies body[k] != '=' by {
        if k < key.len() {
            assert(body[k] == key[k]);
            assert(key.contains(key[k]));
        } else {
            assert(body[k] == gap[k - key.len()]);
            assert(text::is_space(gap[k - key.len()]));
        }
    }
    assert(body[n] == '=');
    text::first_index_is(body, '=', n);
    text::trimming_takes_white_space_alone(none, key, gap);
    assert(body.take(n) =~= none + key + gap);
    text::trimming_takes_white_space_alone(lead, value, none);
    assert(body.skip(n + 1) =~= lead + value + none);
}

proof fn trimmed_line(front: Seq<char>, body: Seq<char>, lead: Seq<char>, value: Seq<char>, back: Seq<char>)
    requires
        text::blank(front),
        text::blank(lead),
        text::blank(back),
        text::tight(value),
        body.len() > 0,
        !text::is_space(body[0]),
        !text::is_space(body.last()),
    ensures
        text::trimmed(front + body + lead + value + back) == (if value.len() > 0 {
            body + lead + value
        } else {
            body
        }),
{
    let line = front + body + lead + value + back;
    if value.len() > 0 {
        let core = body + lead + value;
        assert(core[0] == body[0]);
        assert(core.last() == value.last());
        text::trimming_takes_white_space_alone(front, core, back);
        assert(front + core + back =~= line);
    } else {
        let end = lead + back;
        assert forall|i: int| 0 <= i < end.len() implies text::is_space(#[trigger] end[i]) by {
            if i < lead.len() {
                assert(end[i] == lead[i]);
            } else {
                assert(end[i] == back[i - lead.len()]);
            }
        }
        text::trimming_takes_white_space_alone(front, body, end);
        assert(front + body + end =~= line);
    }
}

/// A line `KEY=VALUE` sets the name to the value as it stands, whatever characters are in it,
/// where the value is not in quotes; white space around either makes no difference.
pub proof fn unquoted_value_is_kept(
    front: Seq<char>,
    key: Seq<char>,
    gap: Seq<char>,
    lead: Seq<char>,
    value: Seq<char>,
    back: Seq<char>,
)
    requires
        key.len() > 0,
        text::tight(key),
        key[0] != '#',
        !key.contains('='),
        !"export "@.is_prefix_of(key + gap),
        text::blank(front),
        text::blank(gap),
        text::blank(lead),
        text::blank(back),
        text::tight(value),
        !(value.len() >= 2 && value[0] == value.last() && (value[0] == '"' || value[0] == '\'')),
    ensures
        env_line(front + key + gap + seq!['='] + lead + value + back) == EnvLine::Pair(key, value),
{
    line_is_an_assignment(front, key, gap, lead, value, back);
    only_quotes_come_off(value, value, '"');
}

/// A line `KEY="VALUE"`, or with single quotes, sets the name to what stands between the
/// quotes, whatever characters are in it; white space around either makes no difference.
pub proof fn quotes_keep_what_is_between(
    front: Seq<char>,
    key: Seq<char>,
    gap: Seq<char>,
    lead: Seq<char>,
    value: Seq<char>,
    quote: char,
    back: Seq<char>,
)
    requires
        key.len() > 0,
        text::tight(key),
        key[0] != '#',
        !key.contains('='),
        !"export "@.is_prefix_of(key + gap),
        text::blank(front),
        text::blank(gap),
        text::blank(lead),
        text::blank(back),
        quote == '"' || quote == '\'',
    ensures
        env_line(front + key + gap + seq!['='] + lead + (seq![quote] + value + seq![quote]) + back)
            == EnvLine::Pair(key, value),
{
    let v = seq![quote] + value + seq![quote];
    assert(v[0] == quote && v.last() == quote);
    line_is_an_assignment(front, key, gap, lead, v, back);
    only_quotes_come_off(v, value, quote);
}

proof fn line_is_an_assignment(
    front: Seq<char>,
    key: Seq<char>,
    gap: Seq<char>,
    lead: Seq<char>,
    value: Seq<char>,
    back: Seq<char>,
)
    requires
        key.len() > 0,
        text::tight(key),
        key[0] != '#',
        !key.contains('='),
        !"export "@.is_prefix_of(key + gap),
        text::blank(front),
        text::blank(gap),
        text::blank(lead),
        text::blank(back),
        text::tight(value),
    ensures
        env_line(front + key + gap + seq!['='] + lead + value + back) == EnvLine::Pair(
            key,
            unquoted(value),
        ),
{
    let body = key + gap + seq!['='];
    let none = Seq::<char>::empty();
    assert(body[0] == key[0]);
    assert(body.last() == '=');
    trimmed_line(front, body, lead, value, back);
    assert(front + body + lead + value + back =~= front + key + gap + seq!['='] + lead + value + back);
    let line = text::trimmed(front + body + lead + value + back);
    let l = if value.len() > 0 {
        lead
    } else {
        none
    };
    assert(line =~= key + gap + seq!['='] + l + value);
    assert(line[0] == key[0]);
    no_export(key + gap, l + value);
    assert(line =~= key + gap + seq!['='] + (l + value));
    assignment_of(key, gap, l, value);
}

proof fn no_export(a: Seq<char>, b: Seq<char>)
    requires
        !"export "@.is_prefix_of(a),
    ensures
        without_export(a + seq!['='] + b) == a + seq!['='] + b,
{
    reveal_strlit("export ");
    let e = "export "@;
    let line = a + seq!['='] + b;
    if e.is_prefix_of(line) {
        assert(e =~= line.subrange(0, 7));
        if a.len() < 7 {
            assert(line[a.len() as int] == '=');
            assert(e[a.len() as int] == '=');
        } else {
            assert(a.subrange(0, 7) =~= e);
        }
    }
}

/// `export` in front of an assignment makes no difference.
pub proof fn export_makes_no_difference(
    front: Seq<char>,
    more: Seq<char>,
    key: Seq<char>,
    gap: Seq<char>,
    lead: Seq<char>,
    value: Seq<char>,
    back: Seq<char>,
)
    requires
        key.len() > 0,
        text::tight(key),
        !key.contains('='),
        text::blank(front),
        text::blank(more),
        text::blank(gap),
        text::blank(lead),
        text::blank(back),
        text::tight(value),
        !(value.len() >= 2 && value[0] == value.last() && (value[0] == '"' || value[0] == '\'')),
    ensures
        env_line(front + "export "@ + more + key + gap + seq!['='] + lead + value + back)
            == EnvLine::Pair(key, value),
{
    reveal_strlit("export ");
    let e = "export "@;
    let none = Seq::<char>::empty();
    let body = e + more + key + gap + seq!['='];
    assert(body[0] == 'e');
    assert(body.last() == '=');
    trimmed_line(front, body, lead, value, back);
    assert(front + body + lead + value + back =~= front + e + more + key + gap + seq!['='] + lead + value + back);
    let line = text::trimmed(front + body + lead + value + back);
    let l = if value.len() > 0 {
        lead
    } else {
        none
    };
    let core = key + gap + seq!['='] + l + value;
    assert(core[0] == key[0]);
    assert(value.len() > 0 ==> core.last() == value.last());
    assert(value.len() == 0 ==> core.last() == '=');
    text::trimming_takes_white_space_alone(more, core, none);
    text::prefix_comes_off(e, more + core + none, line);
    assert(line =~= e + (more + core + none));
    assert(line[0] == 'e');
    assignment_of(key, gap, l, value);
    only_quotes_come_off(value, value, '"');
}

/// A line that is neither empty nor a comment has to have an equals sign, with a name in
/// front of it.
pub proof fn line_without_name_is_invalid(
    front: Seq<char>,
    line: Seq<char>,
    lead: Seq<char>,
    value: Seq<char>,
    back: Seq<char>,
)
    requires
        text::blank(front),
        text::blank(lead),
        text::blank(back),
        text::tight(line),
        text::tight(value),
        line.len() > 0,
        line[0] != '#',
        !line.contains('='),
    ensures
        env_line(front + line + back) == EnvLine::Invalid,
        env_line(front + seq!['='] + lead + value + back) == EnvLine::Invalid,
{
    reveal_strlit("export ");
    let e = "export "@;
    let none = Seq::<char>::empty();
    text::trimming_takes_white_space_alone(front, line, back);
    let body = without_export(line);
    assert(!body.contains('=')) by {
        if e.is_prefix_of(line) {
            let rest = line.skip(7);
            trimmed_holds_nothing_else(rest, '=');
            if body.contains('=') {
                assert(rest.contains('='));
                let k = choose|k: int| 0 <= k < rest.len() && rest[k] == '=';
                assert(line[k + 7] == '=');
            }
        }
    }
    text::first_index_properties(body, '=');
    let n = text::first_index(body, '=');
    if n < body.len() {
        assert(body[n] == '=');
        assert(body.contains(body[n]));
    }
    trimmed_line(front, seq!['='], lead, value, back);
    let eq = text::trimmed(front + seq!['='] + lead + value + back);
    let l = if value.len() > 0 {
        lead
    } else {
        none
    };
    assert(eq =~= none + none + seq!['='] + l + value);
    assert(eq[0] == '=');
    no_export(none, l + value);
    assert(eq =~= none + seq!['='] + (l + value));
    assignment_of(none, none, l, value);
}

proof fn trimmed_holds_nothing_else(s: Seq<char>, c: char)
    ensures
        text::trimmed(s).contains(c) ==> s.contains(c),
    decreases s.len(),
{
    if s.len() > 0 && text::is_space(s[0]) {
        trimmed_holds_nothing_else(s.drop_first(), c);
        if text::trimmed(s).contains(c) {
            let k = choose|k: int| 0 <= k < s.drop_first().len() && s.drop_first()[k] == c;
            assert(s[k + 1] == c);
        }
    } else {
        end_holds_nothing_else(s, c);
    }
}

proof fn end_holds_nothing_else(s: Seq<char>, c: char)
    ensures
        text::trim_end(s).contains(c) ==> s.contains(c),
    decreases s.len(),
{
    if s.len() > 0 && text::is_space(s.last()) {
        end_holds_nothing_else(s.drop_last(), c);
        if text::trim_end(s).contains(c) {
            let k = choose|k: int| 0 <= k < s.drop_last().len() && s.drop_last()[k] == c;
            assert(s[k] == c);
        }
    }
}

/// Lines set what each of them sets, one after another.
pub proof fn lines_set_what_each_sets(a: Seq<Seq<char>>, b: Seq<Seq<char>>, line: Seq<char>)
    ensures
        env_pairs(a + b) == env_pairs(a) + env_pairs(b),
        env_pairs(seq![line]) == (match env_line(line) {
            EnvLine::Pair(key, value) => seq![(key, value)],
            _ => Seq::empty(),
        }),
    decreases b.len(),
{
    let one = seq![line];
    assert(one.drop_last() =~= Seq::empty());
    assert(env_pairs(one.drop_last()) =~= Seq::empty());
    assert(one.last() == line);
    if let EnvLine::Pair(key, value) = env_line(line) {
        assert(env_pairs(one) =~= seq![(key, value)]);
    }
    if b.len() == 0 {
        assert(a + b =~= a);
        assert(env_pairs(a) + env_pairs(b) =~= env_pairs(a));
    } else {
        assert((a + b).drop_last() =~= a + b.drop_last());
        assert((a + b).last() == b.last());
        lines_set_what_each_sets(a, b.drop_last(), line);
        assert(env_pairs(a + b) =~= env_pairs(a) + env_pairs(b));
    }
}

/// The texts of pairs are those of each pair, in order.
pub proof fn pair_texts_are_those_of_each(v: Seq<(String, String)>, i: int)
    ensures
        pair_texts(v).len() == v.len(),
        0 <= i < v.len() ==> pair_texts(v)[i].0 == v[i].0@ && pair_texts(v)[i].1 == v[i].1@,
{
}

} // verus!
