//! Log files: their last lines, what is added to them, and lines as JSON.
use vstd::prelude::*;
use vstd::string::*;

use crate::lossy;
use crate::lossy::from_utf8_lossy;
use crate::paths;
use crate::paths::log_path;
use crate::text;
use crate::text::{from_chars, join, lines, to_chars};
use crate::time;
use crate::time::{parse_since, Moment, SinceError};

verus! {

/// How many bytes are read at a time.
pub const CHUNK: u64 = 8192;

/// How often a byte occurs.
pub open spec fn occurrences<T>(s: Seq<T>, x: T) -> nat
    decreases s.len(),
{
    if s.len() == 0 {
        0
    } else {
        occurrences(s.drop_last(), x) + if s.last() == x {
            1nat
        } else {
            0nat
        }
    }
}

/// The last `n` items, or all where there are fewer.
pub open spec fn last_items<T>(s: Seq<T>, n: nat) -> Seq<T> {
    if s.len() <= n {
        s
    } else {
        s.skip(s.len() - n)
    }
}

/// The last `n` lines of the text of bytes.
pub open spec fn tail_of(content: Seq<u8>, n: nat) -> Seq<Seq<char>> {
    last_items(text::lines_of(lossy::lossy(content)), n)
}

proof fn occurrences_bounded<T>(s: Seq<T>, x: T)
    ensures
        occurrences(s, x) <= s.len(),
    decreases s.len(),
{
    if s.len() > 0 {
        occurrences_bounded(s.drop_last(), x);
    }
}

proof fn occurrences_add<T>(a: Seq<T>, b: Seq<T>, x: T)
    ensures
        occurrences(a + b, x) == occurrences(a, x) + occurrences(b, x),
    decreases b.len(),
{
    if b.len() == 0 {
        assert(a + b =~= a);
    } else {
        assert((a + b).drop_last() =~= a + b.drop_last());
        occurrences_add(a, b.drop_last(), x);
    }
}

proof fn occurs_somewhere<T>(s: Seq<T>, x: T)
    requires
        occurrences(s, x) > 0,
    ensures
        text::first_index(s, x) < s.len(),
    decreases s.len(),
{
    text::first_index_properties(s, x);
    let i = last_place(s, x);
    if text::first_index(s, x) == s.len() {
        assert(s[i] != x);
    }
}

proof fn last_place<T>(s: Seq<T>, x: T) -> (i: int)
    requires
        occurrences(s, x) > 0,
    ensures
        0 <= i < s.len(),
        s[i] == x,
    decreases s.len(),
{
    if s.last() == x {
        s.len() - 1
    } else {
        last_place(s.drop_last(), x)
    }
}

/// The lines before a line feed, then those after it.
proof fn lines_split(u: Seq<char>, w: Seq<char>)
    ensures
        text::lines_of(u + seq!['\n'] + w) == text::lines_of(u + seq!['\n']) + text::lines_of(w),
    decreases u.len(),
{
    let s = u + seq!['\n'] + w;
    let t = u + seq!['\n'];
    text::first_index_properties(t, '\n');
    let n = text::first_index(t, '\n');
    assert(n <= u.len()) by {
        if n > u.len() {
            assert(t[u.len() as int] == '\n');
        }
    }
    assert forall|k: int| 0 <= k <= n implies s[k] == t[k] by {}
    text::first_index_is(s, '\n', n);
    assert(s.take(n) =~= t.take(n));
    if n == u.len() {
        assert(s.skip(n + 1) =~= w);
        assert(t.skip(n + 1) =~= Seq::<char>::empty());
        assert(text::lines_of(t.skip(n + 1)) =~= Seq::<Seq<char>>::empty());
        assert(text::lines_of(s) =~= text::lines_of(t) + text::lines_of(w));
    } else {
        let rest = u.skip(n + 1);
        lines_split(rest, w);
        assert(s.skip(n + 1) =~= rest + seq!['\n'] + w);
        assert(t.skip(n + 1) =~= rest + seq!['\n']);
        assert(text::lines_of(s) =~= text::lines_of(t) + text::lines_of(w));
    }
}

/// There are at least as many lines as line feeds.
proof fn lines_at_least(s: Seq<char>)
    ensures
        text::lines_of(s).len() >= occurrences(s, '\n'),
    decreases s.len(),
{
    text::first_index_properties(s, '\n');
    let n = text::first_index(s, '\n');
    if s.len() == 0 {
    } else if n >= s.len() {
        if occurrences(s, '\n') > 0 {
            occurs_somewhere(s, '\n');
        }
    } else {
        let rest = s.skip(n + 1);
        lines_at_least(rest);
        let front = s.take(n);
        assert(s =~= front + seq!['\n'] + rest);
        occurrences_add(front + seq!['\n'], rest, '\n');
        occurrences_add(front, seq!['\n'], '\n');
        if occurrences(front, '\n') > 0 {
            let i = last_place(front, '\n');
            assert(s[i] == '\n');
        }
        assert(seq!['\n'].drop_last() =~= Seq::<char>::empty());
        assert(occurrences(seq!['\n'].drop_last(), '\n') == 0);
        assert(occurrences(seq!['\n'], '\n') == 1);
    }
}

/// The text of bytes has no fewer line feeds than the bytes.
proof fn lossy_keeps_feeds(s: Seq<u8>)
    ensures
        occurrences(lossy::lossy(s), '\n') >= occurrences(s, 10u8),
    decreases s.len(),
{
    if occurrences(s, 10u8) > 0 {
        occurs_somewhere(s, 10u8);
        text::first_index_properties(s, 10u8);
        let n = text::first_index(s, 10u8);
        let a = s.take(n);
        let b = s.skip(n + 1);
        assert(s =~= a + seq![10u8] + b);
        lossy::lossy_splits_at_feed(a, b);
        lossy_keeps_feeds(b);
        occurrences_add(a + seq![10u8], b, 10u8);
        occurrences_add(a, seq![10u8], 10u8);
        if occurrences(a, 10u8) > 0 {
            let i = last_place(a, 10u8);
            assert(s[i] == 10u8);
        }
        assert(seq![10u8].drop_last() =~= Seq::<u8>::empty());
        assert(occurrences(seq![10u8].drop_last(), 10u8) == 0);
        assert(occurrences(seq![10u8], 10u8) == 1);
        let la = lossy::lossy(a);
        let lb = lossy::lossy(b);
        occurrences_add(la + seq!['\n'], lb, '\n');
        occurrences_add(la, seq!['\n'], '\n');
        assert(seq!['\n'].drop_last() =~= Seq::<char>::empty());
        assert(occurrences(seq!['\n'].drop_last(), '\n') == 0);
        assert(occurrences(seq!['\n'], '\n') == 1);
    }
}

/// The end of a file holds its last lines once it holds more line feeds than lines are
/// asked for.
pub proof fn tail_is_exact(content: Seq<u8>, pos: int, n: nat)
    requires
        0 <= pos <= content.len(),
        pos == 0 || occurrences(content.skip(pos), 10u8) > n,
    ensures
        tail_of(content.skip(pos), n) == tail_of(content, n),
{
    let buf = content.skip(pos);
    if pos == 0 {
        assert(buf =~= content);
    } else {
        occurs_somewhere(buf, 10u8);
        text::first_index_properties(buf, 10u8);
        let k = text::first_index(buf, 10u8);
        let p = buf.take(k);
        let q = buf.skip(k + 1);
        assert(buf =~= p + seq![10u8] + q);
        let x = content.take(pos + k);
        assert(content =~= x + seq![10u8] + q);
        lossy::lossy_splits_at_feed(p, q);
        lossy::lossy_splits_at_feed(x, q);
        lines_split(lossy::lossy(p), lossy::lossy(q));
        lines_split(lossy::lossy(x), lossy::lossy(q));
        occurrences_add(p + seq![10u8], q, 10u8);
        occurrences_add(p, seq![10u8], 10u8);
        if occurrences(p, 10u8) > 0 {
            let i = last_place(p, 10u8);
            assert(buf[i] == 10u8);
        }
        assert(seq![10u8].drop_last() =~= Seq::<u8>::empty());
        assert(occurrences(seq![10u8].drop_last(), 10u8) == 0);
        assert(occurrences(seq![10u8], 10u8) == 1);
        lossy_keeps_feeds(q);
        lines_at_least(lossy::lossy(q));
        let common = text::lines_of(lossy::lossy(q));
        assert(common.len() >= n);
        last_of_longer(text::lines_of(lossy::lossy(p) + seq!['\n']), common, n);
        last_of_longer(text::lines_of(lossy::lossy(x) + seq!['\n']), common, n);
    }
}

proof fn last_of_longer<T>(a: Seq<T>, b: Seq<T>, n: nat)
    requires
        b.len() >= n,
    ensures
        last_items(a + b, n) == last_items(b, n),
{
    assert(last_items(a + b, n) =~= last_items(b, n));
}

fn count_feeds(s: &Vec<u8>) -> (r: usize)
    ensures
        r == occurrences(s@, 10u8),
{
    let mut r: usize = 0;
    let mut i: usize = 0;
    while i < s.len()
        invariant
            i <= s@.len(),
            r == occurrences(s@.take(i as int), 10u8),
            r <= i,
        decreases s@.len() - i,
    {
        assert(s@.take(i + 1).drop_last() =~= s@.take(i as int));
        if s[i] == 10 {
            r += 1;
        }
        i += 1;
    }
    assert(s@.take(i as int) =~= s@);
    r
}

/// The end of a file, read backwards chunk by chunk until it holds enough lines.
#[derive(Debug)]
pub struct Tail {
    /// How many lines are wanted.
    pub wanted: usize,
    /// Where in the file the part that was read begins.
    pub pos: u64,
    pub buf: Vec<u8>,
    /// How many line feeds it holds.
    pub found: usize,
}

impl Tail {
    /// The line feeds are counted right.
    pub open spec fn wf(self) -> bool {
        self.found == occurrences(self.buf@, 10u8)
    }

    /// What was read is the end of this file.
    pub open spec fn reads(self, content: Seq<u8>) -> bool {
        self.pos <= content.len() && self.buf@ == content.skip(self.pos as int)
    }

    /// Enough was read.
    pub open spec fn complete(self) -> bool {
        self.pos == 0 || self.found > self.wanted
    }

    /// Whether the file has to be looked at: for no lines it has not.
    pub fn needs_file(lines: usize) -> (r: bool)
        ensures
            r == (lines != 0),
    {
        lines != 0
    }

    /// Begins at the end of a file of some length.
    pub fn new(len: u64, lines: usize) -> (r: Tail)
        ensures
            r.wf(),
            r.wanted == lines,
            r.pos == len,
            r.buf@.len() == 0,
            forall|content: Seq<u8>| content.len() == len ==> #[trigger] r.reads(content),
    {
        let r = Tail { wanted: lines, pos: len, buf: Vec::new(), found: 0 };
        assert forall|content: Seq<u8>|
            content.len() == len implies #[trigger] r.reads(content) by {
            assert(content.skip(len as int) =~= r.buf@);
        }
        r
    }

    /// The part of the file to read next, as where it begins and how long it is; `None`
    /// where enough was read.
    pub fn next(&self) -> (r: Option<(u64, usize)>)
        ensures
            r == (if self.complete() {
                None
            } else if self.pos < CHUNK {
                Some((0u64, self.pos as usize))
            } else {
                Some(((self.pos - CHUNK) as u64, CHUNK as usize))
            }),
    {
        if self.pos > 0 && self.found <= self.wanted {
            let size: u64 = if self.pos < CHUNK {
                self.pos
            } else {
                CHUNK
            };
            Some((self.pos - size, size as usize))
        } else {
            None
        }
    }

    /// Takes a part of the file that ends where the part that was read begins.
    pub fn supply(&mut self, chunk: Vec<u8>)
        requires
            old(self).wf(),
            chunk@.len() <= old(self).pos,
        ensures
            final(self).wf(),
            final(self).wanted == old(self).wanted,
            final(self).pos == old(self).pos - chunk@.len(),
            final(self).buf@ == chunk@ + old(self).buf@,
            forall|content: Seq<u8>| #[trigger]
                old(self).reads(content) && chunk@ == content.subrange(
                    old(self).pos - chunk@.len(),
                    old(self).pos as int,
                ) ==> final(self).reads(content),
    {
        let ghost before = *self;
        let count: usize = count_feeds(&chunk);
        let size: usize = chunk.len();
        let mut buf = chunk;
        buf.append(&mut self.buf);
        proof {
            occurrences_add(chunk@, before.buf@, 10u8);
            occurrences_bounded(buf@, 10u8);
            assert(buf@.len() == buf.len());
        }
        self.buf = buf;
        self.found = self.found + count;
        self.pos = self.pos - size as u64;
        assert forall|content: Seq<u8>| #[trigger]
            before.reads(content) && chunk@ == content.subrange(
                before.pos - chunk@.len(),
                before.pos as int,
            ) implies self.reads(content) by {
            assert(self.buf@ =~= content.skip(self.pos as int));
        }
    }

    /// The last lines of what was read. Once enough was read, they are the last lines of
    /// the file.
    pub fn read_tail_lines(&self) -> (r: Vec<String>)
        requires
            self.wf(),
        ensures
            text::texts(r@) == tail_of(self.buf@, self.wanted as nat),
            forall|content: Seq<u8>| #[trigger]
                self.reads(content) && self.complete() ==> text::texts(r@) == tail_of(
                    content,
                    self.wanted as nat,
                ),
    {
        let content_text = from_utf8_lossy(self.buf.as_slice());
        let chars = to_chars(content_text.as_str());
        let all = lines(chars.as_slice());
        let ghost spec_all = text::lines_of(lossy::lossy(self.buf@));
        let start: usize = all.len().saturating_sub(self.wanted);
        let mut r: Vec<String> = Vec::new();
        let mut i: usize = start;
        assert(spec_all.len() == all@.len());
        while i < all.len()
            invariant
                start <= i <= all@.len(),
                all@.map_values(|l: &[char]| l@) == spec_all,
                text::texts(r@) == spec_all.subrange(start as int, i as int),
            decreases all@.len() - i,
        {
            let ghost before = r@;
            r.push(from_chars(all[i]));
            assert(spec_all[i as int] == all@[i as int]@);
            assert(text::texts(r@) =~= text::texts(before).push(spec_all[i as int]));
            i += 1;
            assert(text::texts(r@) =~= spec_all.subrange(start as int, i as int));
        }
        assert(text::texts(r@) =~= tail_of(self.buf@, self.wanted as nat));
        assert forall|content: Seq<u8>| #[trigger]
            self.reads(content) && self.complete() implies text::texts(r@) == tail_of(
            content,
            self.wanted as nat,
        ) by {
            tail_is_exact(content, self.pos as int, self.wanted as nat);
        }
        r
    }
}

/// The hexadecimal digit for a number below sixteen.
pub open spec fn hex_digit(d: int) -> char {
    if d < 10 {
        ('0' as u32 + d) as char
    } else {
        ('a' as u32 + d - 10) as char
    }
}

/// A character inside a JSON string.
pub open spec fn json_char(c: char) -> Seq<char> {
    if c == '"' {
        seq!['\\', '"']
    } else if c == '\\' {
        seq!['\\', '\\']
    } else if c == '\u{8}' {
        seq!['\\', 'b']
    } else if c == '\u{c}' {
        seq!['\\', 'f']
    } else if c == '\n' {
        seq!['\\', 'n']
    } else if c == '\r' {
        seq!['\\', 'r']
    } else if c == '\t' {
        seq!['\\', 't']
    } else if c <= '\u{1f}' {
        seq!['\\', 'u', '0', '0', hex_digit(c as int / 16), hex_digit(c as int % 16)]
    } else {
        seq![c]
    }
}

/// The inside of a JSON string.
pub open spec fn json_inside(s: Seq<char>) -> Seq<char>
    decreases s.len(),
{
    if s.len() == 0 {
        Seq::empty()
    } else {
        json_inside(s.drop_last()) + json_char(s.last())
    }
}

/// A text as a JSON string.
pub open spec fn json_text(s: Seq<char>) -> Seq<char> {
    seq!['"'] + json_inside(s) + seq!['"']
}

/// A JSON object with one text in it.
pub open spec fn json_object_of(key: Seq<char>, value: Seq<char>) -> Seq<char> {
    seq!['{'] + json_text(key) + seq![':'] + json_text(value) + seq!['}']
}

/// `serde_json::Value::Object` with one text in it, in `serde_json`'s compact form: key and
/// value between quotes, with a quote, a backslash and each control character below the
/// blank escaped, by a letter where JSON has one and by four lower-case hexadecimal digits
/// otherwise.
#[verifier::external_body]
fn json_object(key: &str, value: &str) -> (r: String)
    ensures
        r@ == json_object_of(key@, value@),
{
    let mut object = serde_json::Map::new();
    object.insert(key.to_string(), serde_json::Value::String(value.to_string()));
    serde_json::Value::Object(object).to_string()
}

/// A line of a log as JSON.
pub open spec fn json_line_of(line: Seq<char>) -> Seq<char> {
    "{\"line\":"@ + json_text(line) + "}"@
}

/// Writes a line of a log as JSON.
pub fn json_line(line: &str) -> (r: String)
    ensures
        r@ == json_line_of(line@),
{
    proof {
        json_key();
    }
    json_object("line", line)
}

proof fn json_key()
    ensures
        forall|line: Seq<char>| #[trigger] json_object_of("line"@, line) == json_line_of(line),
{
    reveal_strlit("line");
    reveal_strlit("{\"line\":");
    reveal_strlit("}");
    reveal_with_fuel(json_inside, 5);
    let key = "line"@;
    assert(key.drop_last().drop_last().drop_last().drop_last() =~= Seq::empty());
    assert(json_text(key) =~= seq!['"', 'l', 'i', 'n', 'e', '"']);
    assert forall|line: Seq<char>|
        #[trigger] json_object_of("line"@, line) == json_line_of(line) by {
        assert(json_object_of("line"@, line) =~= json_line_of(line));
    }
}

/// A line as JSON stays on one line: it holds no control character.
pub proof fn json_line_is_one_line(line: Seq<char>)
    ensures
        forall|i: int|
            0 <= i < json_line_of(line).len() ==> #[trigger] json_line_of(line)[i] >= ' ',
{
    reveal_strlit("{\"line\":");
    reveal_strlit("}");
    json_inside_is_printable(line);
    let r = json_line_of(line);
    let front = "{\"line\":"@;
    assert forall|i: int| 0 <= i < r.len() implies #[trigger] r[i] >= ' ' by {
        let k = i - front.len();
        if 0 <= k < json_text(line).len() {
            assert(r[i] == json_text(line)[k]);
            if 1 <= k <= json_inside(line).len() {
                assert(json_text(line)[k] == json_inside(line)[k - 1]);
            }
        }
    }
}

proof fn json_char_is_printable(c: char)
    ensures
        forall|i: int| 0 <= i < json_char(c).len() ==> #[trigger] json_char(c)[i] >= ' ',
{
}

proof fn json_inside_is_printable(s: Seq<char>)
    ensures
        forall|i: int| 0 <= i < json_inside(s).len() ==> #[trigger] json_inside(s)[i] >= ' ',
    decreases s.len(),
{
    if s.len() > 0 {
        json_inside_is_printable(s.drop_last());
        let a = json_inside(s.drop_last());
        let c = s.last();
        let b = json_char(c);
        json_char_is_printable(c);
        assert forall|i: int|
            0 <= i < json_inside(s).len() implies #[trigger] json_inside(s)[i] >= ' ' by {
            if i >= a.len() {
                assert(json_inside(s)[i] == b[i - a.len()]);
            } else {
                assert(json_inside(s)[i] == a[i]);
            }
        }
    }
}

/// A text inside a JSON string, from its front.
proof fn json_inside_front(s: Seq<char>)
    requires
        s.len() > 0,
    ensures
        json_inside(s) == json_char(s[0]) + json_inside(s.drop_first()),
    decreases s.len(),
{
    if s.len() == 1 {
        assert(s.drop_last() =~= Seq::empty());
        assert(s.drop_first() =~= Seq::empty());
        assert(json_inside(s.drop_last()) =~= Seq::empty());
        assert(json_inside(s.drop_first()) =~= Seq::empty());
        assert(json_inside(s) =~= json_char(s[0]) + json_inside(s.drop_first()));
    } else {
        json_inside_front(s.drop_last());
        assert(s.drop_last().drop_first() =~= s.drop_first().drop_last());
        assert(s.drop_first().last() == s.last());
        assert(s.drop_last()[0] == s[0]);
        assert(json_inside(s) =~= json_char(s[0]) + json_inside(s.drop_first()));
    }
}

/// Which character a JSON string begins with can be told from what it begins with.
proof fn json_char_is_told(a: char, x: Seq<char>, b: char, y: Seq<char>)
    requires
        json_char(a) + x == json_char(b) + y,
    ensures
        a == b,
        x == y,
{
    let p = json_char(a) + x;
    let q = json_char(b) + y;
    assert(p[0] == json_char(a)[0] && q[0] == json_char(b)[0]);
    if p[0] == '\\' {
        assert(p[1] == json_char(a)[1] && q[1] == json_char(b)[1]);
        if p[1] == 'u' {
            assert(p[4] == json_char(a)[4] && q[4] == json_char(b)[4]);
            assert(p[5] == json_char(a)[5] && q[5] == json_char(b)[5]);
        }
    }
    assert(a == b);
    assert(x =~= p.skip(json_char(a).len() as int));
    assert(y =~= q.skip(json_char(b).len() as int));
}

proof fn json_inside_is_told(s: Seq<char>, t: Seq<char>)
    requires
        json_inside(s) == json_inside(t),
    ensures
        s == t,
    decreases s.len(),
{
    if s.len() > 0 {
        json_inside_front(s);
    }
    if t.len() > 0 {
        json_inside_front(t);
    }
    if s.len() > 0 && t.len() > 0 {
        json_char_is_told(s[0], json_inside(s.drop_first()), t[0], json_inside(t.drop_first()));
        json_inside_is_told(s.drop_first(), t.drop_first());
        assert(s =~= seq![s[0]] + s.drop_first());
        assert(t =~= seq![t[0]] + t.drop_first());
    } else {
        assert(json_inside(Seq::<char>::empty()).len() == 0);
        if s.len() > 0 {
            assert(json_char(s[0]).len() > 0);
            assert(t =~= Seq::empty());
        }
        if t.len() > 0 {
            assert(json_char(t[0]).len() > 0);
            assert(s =~= Seq::empty());
        }
        assert(s =~= t);
    }
}

/// Nothing of a line is lost as JSON: lines that differ differ as JSON too.
pub proof fn json_line_loses_nothing(a: Seq<char>, b: Seq<char>)
    requires
        json_line_of(a) == json_line_of(b),
    ensures
        a == b,
{
    let front = "{\"line\":"@.len() as int;
    let back = "}"@.len() as int;
    let p = json_line_of(a);
    let q = json_line_of(b);
    assert(json_text(a) =~= p.subrange(front, p.len() - back));
    assert(json_text(b) =~= q.subrange(front, q.len() - back));
    let t = json_text(a);
    assert(json_inside(a) =~= t.subrange(1, t.len() - 1));
    assert(json_inside(b) =~= json_text(b).subrange(1, t.len() - 1));
    json_inside_is_told(a, b);
}

/// Lines as JSON, each with a line feed behind it.
pub open spec fn json_lines_of(lines: Seq<Seq<char>>) -> Seq<char>
    decreases lines.len(),
{
    if lines.len() == 0 {
        Seq::empty()
    } else {
        json_lines_of(lines.drop_last()) + json_line_of(lines.last()) + seq!['\n']
    }
}

/// Writes lines as JSON.
pub fn json_lines(lines: &Vec<String>) -> (r: String)
    ensures
        r@ == json_lines_of(text::texts(lines@)),
{
    let mut r = String::new();
    let mut i: usize = 0;
    let ghost all = text::texts(lines@);
    while i < lines.len()
        invariant
            i <= lines@.len(),
            all == text::texts(lines@),
            r@ == json_lines_of(all.take(i as int)),
        decreases lines@.len() - i,
    {
        assert(all.take(i + 1).drop_last() =~= all.take(i as int));
        let ghost before = r@;
        r.append(json_line(lines[i].as_str()).as_str());
        r.push('\n');
        assert(r@ =~= before + json_line_of(all[i as int]) + seq!['\n']);
        i += 1;
    }
    assert(all.take(i as int) =~= all);
    r
}

/// What is printed of the last lines of a log.
pub fn print_tail(lines: &Vec<String>, json: bool) -> (r: String)
    ensures
        r@ == (if json {
            json_lines_of(text::texts(lines@))
        } else {
            text::joined(text::texts(lines@), "\n"@) + "\n"@
        }),
{
    if json {
        json_lines(lines)
    } else {
        join(lines, "\n").concat("\n")
    }
}

/// Where to read from when a log has grown. `pos` is where it ended before, and becomes
/// where it ends now; a log that has not grown changes nothing.
pub fn follow_file(pos: &mut u64, end: u64) -> (r: Option<u64>)
    ensures
        end > *old(pos) ==> r == Some(*old(pos)) && *final(pos) == end,
        end <= *old(pos) ==> r is None && *final(pos) == *old(pos),
{
    if end > *pos {
        let from: u64 = *pos;
        *pos = end;
        Some(from)
    } else {
        None
    }
}

/// What is printed of what was added to a log.
pub fn follow_output(added: &str, json: bool) -> (r: String)
    ensures
        r@ == (if json {
            json_lines_of(text::lines_of(added@))
        } else {
            added@
        }),
{
    if !json {
        return added.to_owned();
    }
    let chars = to_chars(added);
    let all = lines(chars.as_slice());
    let ghost spec_all = text::lines_of(added@);
    let mut out: Vec<String> = Vec::new();
    let mut i: usize = 0;
    while i < all.len()
        invariant
            i <= all@.len(),
            all@.map_values(|l: &[char]| l@) == spec_all,
            text::texts(out@) == spec_all.take(i as int),
        decreases all@.len() - i,
    {
        let ghost before = out@;
        out.push(from_chars(all[i]));
        assert(spec_all[i as int] == all@[i as int]@);
        assert(text::texts(out@) =~= text::texts(before).push(spec_all[i as int]));
        i += 1;
        assert(text::texts(out@) =~= spec_all.take(i as int));
    }
    assert(spec_all.take(i as int) =~= spec_all);
    json_lines(&out)
}

/// Why a log cannot be shown.
#[derive(Debug, Clone, Copy, PartialEq, Eq, Structural)]
pub enum LogsError {
    /// There is no such log file.
    NoLogFile,
    Since(SinceError),
}

/// Which log file is meant.
pub fn logs_path(name: &str, instance: Option<usize>) -> (r: Vec<String>)
    ensures
        text::texts(r@) == paths::log_parts(
            name@,
            (if instance is Some {
                instance->0 as nat
            } else {
                0
            }),
        ),
{
    let idx: usize = match instance {
        Some(i) => i,
        None => 0,
    };
    log_path(name, idx)
}

/// From when on a log is to be shown, where the file is there.
pub open spec fn logs_since(exists: bool, since: Option<Seq<char>>, now: Moment) -> Result<
    Option<Moment>,
    LogsError,
> {
    if !exists {
        Err(LogsError::NoLogFile)
    } else {
        match since {
            None => Ok(None),
            Some(input) => match time::since_of(input) {
                Ok(time::Since::At(ts)) => Ok(Some(Moment { secs: ts as i64, nanos: 0 })),
                Ok(time::Since::Ago(secs)) => Ok(Some(time::seconds_before(now, secs))),
                Err(e) => Err(LogsError::Since(e)),
            },
        }
    }
}

/// Begins to show a log: from when on.
pub fn cmd_logs(exists: bool, since: Option<&str>, now: Moment) -> (r: Result<
    Option<Moment>,
    LogsError,
>)
    requires
        exists && since is Some ==> time::since_in_range(since->0@),
    ensures
        r == logs_since(
            exists,
            text::opt_str(since),
            now,
        ),
{
    if !exists {
        return Err(LogsError::NoLogFile);
    }
    match since {
        None => Ok(None),
        Some(input) => match parse_since(input, now) {
            Ok(t) => Ok(Some(t)),
            Err(e) => Err(LogsError::Since(e)),
        },
    }
}

/// What is done with a log.
#[derive(Debug, Clone, Copy, PartialEq, Eq, Structural)]
pub enum LogAction {
    /// Print the last lines.
    Tail { lines: usize },
    /// Print what is added, for ever.
    Follow,
}

/// How many lines are shown where no number counts.
pub const DEFAULT_LINES: usize = 200;

/// The steps of showing a log. The last lines are shown unless the file has not changed
/// since the given time; when following, they are shown only where a time was given, and
/// the number of lines that was asked for is ignored.
pub open spec fn log_steps(
    since: Option<Moment>,
    mtime: Moment,
    follow: bool,
    lines: usize,
) -> Seq<LogAction> {
    let recent = since is Some && !mtime.precedes(since->0);
    if follow {
        if recent {
            seq![LogAction::Tail { lines: DEFAULT_LINES }, LogAction::Follow]
        } else {
            seq![LogAction::Follow]
        }
    } else if since is None || recent {
        seq![LogAction::Tail { lines }]
    } else {
        Seq::empty()
    }
}

/// Decides how a log is shown. `mtime` is when the file was last changed; it matters only
/// where a time was given.
pub fn log_actions(since: Option<Moment>, mtime: Moment, follow: bool, lines: usize) -> (r: Vec<LogAction>)
    ensures
        r@ == log_steps(since, mtime, follow, lines),
{
    let mut r: Vec<LogAction> = Vec::new();
    if follow {
        if let Some(t) = since {
            if !mtime.is_before(&t) {
                r.push(LogAction::Tail { lines: DEFAULT_LINES });
            }
        }
        r.push(LogAction::Follow);
    } else {
        if let Some(t) = since {
            if mtime.is_before(&t) {
                return r;
            }
        }
        r.push(LogAction::Tail { lines });
    }
    assert(r@ =~= log_steps(since, mtime, follow, lines));
    r
}

/// Without following, a log is shown by one tail of as many lines as were asked for, whatever
/// their number, unless the file was last changed before the time that was given: then
/// nothing is shown.
pub proof fn as_many_lines_as_asked_for(since: Option<Moment>, mtime: Moment, lines: usize)
    ensures
        ({
            let r = log_steps(since, mtime, false, lines);
            let old = since matches Some(t) && (mtime.secs < t.secs || (mtime.secs == t.secs && mtime.nanos
                < t.nanos));
            &&& !old ==> r.len() == 1 && (r[0] matches LogAction::Tail { lines: shown } && shown == lines)
            &&& old ==> r.len() == 0
        }),
{
}

/// Following ends every plan that asks for it, whatever number of lines was asked for. Some
/// lines come first exactly where a time was given and the file was changed at it or later.
pub proof fn following_comes_last(since: Option<Moment>, mtime: Moment, lines: usize, other: usize)
    ensures
        ({
            let r = log_steps(since, mtime, true, lines);
            let recent = since matches Some(t) && (mtime.secs > t.secs || (mtime.secs == t.secs && mtime.nanos
                >= t.nanos));
            &&& r.len() == (if recent { 2nat } else { 1 })
            &&& r.last() is Follow
            &&& recent ==> (r[0] matches LogAction::Tail { lines: shown } && shown == 200)
            &&& r == log_steps(since, mtime, true, other)
        }),
{
}

/// The tail of a file is its last lines, as many as were asked for or as there are, each as
/// it stands in the file.
pub proof fn tail_is_the_last_lines(content: Seq<u8>, n: nat)
    ensures
        ({
            let all = text::lines_of(lossy::lossy(content));
            let r = tail_of(content, n);
            &&& r.len() == (if n < all.len() { n } else { all.len() })
            &&& forall|i: int| 0 <= i < r.len() ==> #[trigger] r[i] == all[all.len() - r.len() + i]
        }),
{
}

/// Lines as JSON are an object for each of them, one to a line, with the whole line under
/// its one key.
pub proof fn json_has_each_line_whole(a: Seq<Seq<char>>, b: Seq<Seq<char>>, line: Seq<char>)
    ensures
        json_lines_of(a + b) == json_lines_of(a) + json_lines_of(b),
        json_lines_of(seq![line]) == json_object_of("line"@, line) + seq!['\n'],
    decreases b.len(),
{
    json_key();
    let one = seq![line];
    assert(one.drop_last() =~= Seq::empty());
    assert(one.last() == line);
    assert(json_object_of("line"@, line) == json_line_of(line));
    assert(json_lines_of(one.drop_last()) =~= Seq::<char>::empty());
    assert(json_lines_of(one) == json_lines_of(one.drop_last()) + json_line_of(line) + seq!['\n']);
    assert(json_lines_of(one) =~= json_line_of(line) + seq!['\n']);
    if b.len() == 0 {
        assert(a + b =~= a);
        assert(json_lines_of(a) + json_lines_of(b) =~= json_lines_of(a));
    } else {
        assert((a + b).drop_last() =~= a + b.drop_last());
        assert((a + b).last() == b.last());
        json_lines_add(a, b.drop_last());
        assert(json_lines_of(a + b) =~= json_lines_of(a) + json_lines_of(b));
    }
}

proof fn json_lines_add(a: Seq<Seq<char>>, b: Seq<Seq<char>>)
    ensures
        json_lines_of(a + b) == json_lines_of(a) + json_lines_of(b),
    decreases b.len(),
{
    if b.len() == 0 {
        assert(a + b =~= a);
        assert(json_lines_of(a) + json_lines_of(b) =~= json_lines_of(a));
    } else {
        assert((a + b).drop_last() =~= a + b.drop_last());
        assert((a + b).last() == b.last());
        json_lines_add(a, b.drop_last());
        assert(json_lines_of(a + b) =~= json_lines_of(a) + json_lines_of(b));
    }
}

/// A log that is there is shown from the time that was given on: Unix seconds as they stand,
/// or that many units before now.
pub proof fn logs_begin_at_the_given_time(n: nat, unit: char, secs: nat, now: Moment)
    requires
        n <= i64::MAX,
        n * secs <= u64::MAX,
        now.secs - n * secs >= i64::MIN,
        (unit == 's' || unit == 'S') && secs == 1 || (unit == 'm' || unit == 'M') && secs == 60 || (unit == 'h'
            || unit == 'H') && secs == 3600 || (unit == 'd' || unit == 'D') && secs == 86400,
    ensures
        logs_since(true, None, now) == Ok::<Option<Moment>, LogsError>(None),
        logs_since(true, Some(text::decimal(n)), now) matches Ok(Some(t)) && t.secs == n && t.nanos == 0,
        logs_since(true, Some(text::decimal(n).push(unit)), now) matches Ok(Some(t)) && now.secs - t.secs
            == n * secs && t.nanos == now.nanos,
        logs_since(false, None, now) == Err::<Option<Moment>, LogsError>(LogsError::NoLogFile),
        logs_since(false, Some(text::decimal(n)), now) == Err::<Option<Moment>, LogsError>(
            LogsError::NoLogFile,
        ),
{
    time::since_takes_numbers_and_units(n, unit);
}

} // verus!
