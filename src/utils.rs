use vstd::prelude::*;

verus! {

/// Characters that may appear in a nick.
pub open spec fn nick_char(c: char) -> bool {
    ('a' <= c && c <= 'z') || ('A' <= c && c <= 'Z') || ('0' <= c && c <= '9') || c == '-'
        || c == '[' || c == ']' || c == '\\' || c == '`' || c == '^' || c == '{' || c == '}'
}

/// Unicode `White_Space` characters, the ones that separate words.
pub open spec fn white(c: char) -> bool {
    let u = c as u32;
    (0x9 <= u && u <= 0xd) || u == 0x20 || u == 0x85 || u == 0xa0 || u == 0x1680 || (0x2000 <= u
        && u <= 0x200a) || u == 0x2028 || u == 0x2029 || u == 0x202f || u == 0x205f || u == 0x3000
}

/// Number of bytes of the UTF-8 encoding of `c`.
pub open spec fn utf8_width(c: char) -> nat {
    let u = c as u32;
    if u < 0x80 {
        1
    } else if u < 0x800 {
        2
    } else if u < 0x10000 && !(0xd800 <= u && u <= 0xdfff) {
        3
    } else {
        4
    }
}

/// Number of bytes of the UTF-8 encoding of `s`.
pub open spec fn byte_len(s: Seq<char>) -> nat
    decreases s.len(),
{
    if s.len() == 0 {
        0
    } else {
        byte_len(s.drop_last()) + utf8_width(s.last())
    }
}

pub fn is_nick_char(c: char) -> (r: bool)
    ensures
        r == nick_char(c),
{
    (c >= 'a' && c <= 'z') || (c >= 'A' && c <= 'Z') || (c >= '0' && c <= '9') || c == '-' || c
        == '[' || c == ']' || c == '\\' || c == '`' || c == '^' || c == '{' || c == '}'
}

pub fn is_white(c: char) -> (r: bool)
    ensures
        r == white(c),
{
    let u = c as u32;
    (0x9 <= u && u <= 0xd) || u == 0x20 || u == 0x85 || u == 0xa0 || u == 0x1680 || (0x2000 <= u
        && u <= 0x200a) || u == 0x2028 || u == 0x2029 || u == 0x202f || u == 0x205f || u == 0x3000
}

pub(crate) fn char_width(c: char) -> (r: usize)
    ensures
        r == utf8_width(c),
{
    let u = c as u32;
    if u < 0x80 {
        1
    } else if u < 0x800 {
        2
    } else if u < 0x10000 && !(0xd800 <= u && u <= 0xdfff) {
        3
    } else {
        4
    }
}

/// Whether two strings hold the same characters.
pub fn str_eq(a: &str, b: &str) -> (r: bool)
    ensures
        r == (a@ == b@),
{
    let n = a.unicode_len();
    if n != b.unicode_len() {
        return false;
    }
    let mut i: usize = 0;
    while i < n
        invariant
            n == a@.len() == b@.len(),
            i <= n,
            a@.subrange(0, i as int) == b@.subrange(0, i as int),
        decreases n - i,
    {
        if a.get_char(i) != b.get_char(i) {
            assert(a@[i as int] != b@[i as int]);
            return false;
        }
        assert(a@.subrange(0, i + 1) =~= a@.subrange(0, i as int).push(a@[i as int]));
        assert(b@.subrange(0, i + 1) =~= b@.subrange(0, i as int).push(b@[i as int]));
        i = i + 1;
    }
    assert(a@ =~= a@.subrange(0, n as int));
    assert(b@ =~= b@.subrange(0, n as int));
    true
}

/// The characters of `s`, in order.
pub fn chars_of(s: &str) -> (r: Vec<char>)
    ensures
        r@ == s@,
{
    let n = s.unicode_len();
    let mut r: Vec<char> = Vec::new();
    let mut i: usize = 0;
    while i < n
        invariant
            n == s@.len(),
            i <= n,
            r@ == s@.subrange(0, i as int),
        decreases n - i,
    {
        r.push(s.get_char(i));
        i = i + 1;
    }
    assert(r@ =~= s@);
    r
}

/// Relies on `String::push`: appends one character at the end.
#[verifier::external_body]
pub(crate) fn push_char(s: &mut String, c: char)
    ensures
        final(s)@ == old(s)@.push(c),
{
    s.push(c)
}

/// The string made of the characters `v[from..to]`.
pub fn string_of(v: &Vec<char>, from: usize, to: usize) -> (r: String)
    requires
        from <= to <= v@.len(),
    ensures
        r@ == v@.subrange(from as int, to as int),
{
    let mut r = String::new();
    let mut i: usize = from;
    while i < to
        invariant
            from <= i <= to <= v@.len(),
            r@ == v@.subrange(from as int, i as int),
        decreases to - i,
    {
        push_char(&mut r, v[i]);
        i = i + 1;
        assert(r@ =~= v@.subrange(from as int, i as int));
    }
    r
}

// ---------------------------------------------------------------------------
// Inserting one sequence into another
/// Yields the items of `orig`, with the items of `insert` placed before the
/// item at `insert_point`.
pub struct InsertIterator<A> {
    insert_point: usize,
    current_idx: usize,
    insert_idx: usize,
    orig: Vec<A>,
    insert: Vec<A>,
}

/// What `insert_iter(orig, insert, p)` yields: `insert` spliced in at `p`, or
/// `orig` alone where it runs out before `p`.
pub open spec fn inserted<A>(orig: Seq<A>, insert: Seq<A>, p: int) -> Seq<A> {
    if p <= orig.len() {
        orig.take(p) + insert + orig.skip(p)
    } else {
        orig
    }
}

impl<A: Copy> InsertIterator<A> {
    pub closed spec fn wf(&self) -> bool {
        &&& self.current_idx <= self.orig@.len()
        &&& self.insert_idx <= self.insert@.len()
        &&& self.current_idx < self.insert_point ==> self.insert_idx == 0
        &&& self.current_idx > self.insert_point ==> self.insert_idx == self.insert@.len()
    }

    /// The items still to come.
    pub closed spec fn remaining(&self) -> Seq<A> {
        if self.current_idx >= self.insert_point {
            self.insert@.skip(self.insert_idx as int) + self.orig@.skip(self.current_idx as int)
        } else if self.insert_point <= self.orig@.len() {
            self.orig@.subrange(self.current_idx as int, self.insert_point as int) + self.insert@
                + self.orig@.skip(self.insert_point as int)
        } else {
            self.orig@.skip(self.current_idx as int)
        }
    }

    pub fn next(&mut self) -> (r: Option<A>)
        requires
            old(self).wf(),
        ensures
            final(self).wf(),
            old(self).remaining().len() == 0 ==> r is None && final(self).remaining() == old(
                self,
            ).remaining(),
            old(self).remaining().len() > 0 ==> r == Some(old(self).remaining()[0])
                && final(self).remaining() == old(self).remaining().drop_first(),
    {
        if self.current_idx >= self.insert_point {
            if self.insert_idx < self.insert.len() {
                let a = self.insert[self.insert_idx];
                self.insert_idx = self.insert_idx + 1;
                assert(self.remaining() =~= old(self).remaining().drop_first());
                Some(a)
            } else if self.current_idx < self.orig.len() {
                let a = self.orig[self.current_idx];
                self.current_idx = self.current_idx + 1;
                assert(self.remaining() =~= old(self).remaining().drop_first());
                Some(a)
            } else {
                None
            }
        } else if self.current_idx < self.orig.len() {
            let a = self.orig[self.current_idx];
            self.current_idx = self.current_idx + 1;
            assert(self.remaining() =~= old(self).remaining().drop_first());
            Some(a)
        } else {
            None
        }
    }
}

pub fn insert_iter<A: Copy>(orig: Vec<A>, insert: Vec<A>, insert_point: usize) -> (r:
    InsertIterator<A>)
    ensures
        r.wf(),
        r.remaining() == inserted(orig@, insert@, insert_point as int),
{
    let r = InsertIterator { insert_point, current_idx: 0, insert_idx: 0, orig, insert };
    assert(r.remaining() =~= inserted(r.orig@, r.insert@, insert_point as int));
    r
}


// ---------------------------------------------------------------------------
// Word start offsets
/// A word starts at `i` when `s[i]` is no white space and `s[i - 1]`, if any, is.
pub open spec fn word_start(s: Seq<char>, i: int) -> bool {
    !white(s[i]) && (i == 0 || white(s[i - 1]))
}

/// Byte offsets of the words of `s` from char position `i` on, where `b` is
/// the byte offset of position `i`.
pub open spec fn word_starts_from(s: Seq<char>, i: int, b: int) -> Seq<int>
    decreases s.len() - i,
{
    if i < 0 || i >= s.len() {
        Seq::empty()
    } else if word_start(s, i) {
        seq![b] + word_starts_from(s, i + 1, b + utf8_width(s[i]))
    } else {
        word_starts_from(s, i + 1, b + utf8_width(s[i]))
    }
}

/// Byte offsets at which the whitespace-separated words of `s` begin.
pub open spec fn word_starts(s: Seq<char>) -> Seq<int> {
    word_starts_from(s, 0, 0)
}

pub(crate) proof fn lemma_byte_len_step(s: Seq<char>, i: int)
    requires
        0 <= i < s.len(),
    ensures
        byte_len(s.take(i + 1)) == byte_len(s.take(i)) + utf8_width(s[i]),
        byte_len(s.take(i)) <= byte_len(s.take(i + 1)) <= byte_len(s),
    decreases s.len(),
{
    assert(s.take(i + 1).drop_last() =~= s.take(i));
    if i + 1 < s.len() {
        lemma_byte_len_step(s.drop_last(), i);
        assert(s.drop_last().take(i) =~= s.take(i));
        assert(s.drop_last().take(i + 1) =~= s.take(i + 1));
    } else {
        assert(s.take(i + 1) =~= s);
    }
}

/// Like a whitespace split, but yields the byte offset at which each word begins.
pub struct SplitWhitespaceIndices {
    chars: Vec<char>,
    pos: usize,
    byte_pos: usize,
}

impl SplitWhitespaceIndices {
    pub closed spec fn wf(&self) -> bool {
        &&& self.pos <= self.chars@.len()
        &&& self.byte_pos == byte_len(self.chars@.take(self.pos as int))
        &&& byte_len(self.chars@) <= usize::MAX
    }

    /// The offsets still to come.
    pub closed spec fn remaining(&self) -> Seq<int> {
        word_starts_from(self.chars@, self.pos as int, self.byte_pos as int)
    }

    pub fn next(&mut self) -> (r: Option<usize>)
        requires
            old(self).wf(),
        ensures
            final(self).wf(),
            old(self).remaining().len() == 0 ==> r is None && final(self).remaining().len() == 0,
            old(self).remaining().len() > 0 ==> (r matches Some(i) && i == old(self).remaining()[0]
                && final(self).remaining() == old(self).remaining().drop_first()),
    {
        let n = self.chars.len();
        while self.pos < n && !(!is_white(self.chars[self.pos]) && (self.pos == 0 || is_white(
            self.chars[self.pos - 1],
        )))
            invariant
                self.wf(),
                n == self.chars@.len(),
                self.chars@ == old(self).chars@,
                self.remaining() == old(self).remaining(),
            decreases n - self.pos,
        {
            proof {
                lemma_byte_len_step(self.chars@, self.pos as int);
            }
            self.byte_pos = self.byte_pos + char_width(self.chars[self.pos]);
            self.pos = self.pos + 1;
        }
        if self.pos == n {
            None
        } else {
            let b = self.byte_pos;
            proof {
                lemma_byte_len_step(self.chars@, self.pos as int);
            }
            self.byte_pos = self.byte_pos + char_width(self.chars[self.pos]);
            self.pos = self.pos + 1;
            Some(b)
        }
    }
}

proof fn lemma_byte_len_first(s: Seq<char>)
    requires
        s.len() > 0,
    ensures
        byte_len(s) == utf8_width(s[0]) + byte_len(s.drop_first()),
    decreases s.len(),
{
    if s.len() > 1 {
        lemma_byte_len_first(s.drop_last());
        assert(s.drop_last().drop_first() =~= s.drop_first().drop_last());
        assert(s.drop_first().last() == s.last());
        assert(s.drop_last()[0] == s[0]);
        assert(byte_len(s.drop_first()) == byte_len(s.drop_first().drop_last()) + utf8_width(
            s.drop_first().last(),
        ));
    } else {
        assert(byte_len(s.drop_last()) == 0);
        assert(byte_len(s.drop_first()) == 0);
        assert(s.last() == s[0]);
    }
}

/// `byte_len` is the length of the UTF-8 encoding.
proof fn lemma_byte_len_is_encoding_len(s: Seq<char>)
    ensures
        byte_len(s) == vstd::utf8::encode_utf8(s).len(),
    decreases s.len(),
{
    if s.len() > 0 {
        lemma_byte_len_first(s);
        lemma_byte_len_is_encoding_len(s.drop_first());
        assert(vstd::utf8::encode_scalar(s[0] as u32).len() == utf8_width(s[0]));
    }
}

pub fn split_whitespace_indices(s: &str) -> (r: SplitWhitespaceIndices)
    ensures
        r.wf(),
        r.remaining() == word_starts(s@),
{
    let bytes = s.as_bytes();
    let _n = bytes.len();
    proof {
        lemma_byte_len_is_encoding_len(s@);
    }
    let r = SplitWhitespaceIndices { chars: chars_of(s), pos: 0, byte_pos: 0 };
    assert(r.chars@.take(0) =~= Seq::<char>::empty());
    r
}

// ---------------------------------------------------------------------------
// Nick runs
/// End of the run that starts at `i`: the first position after `i` whose
/// character differs from `s[i]` in being a nick character, or the end.
pub open spec fn run_end(s: Seq<char>, i: int) -> int
    decreases s.len() - i,
{
    if i < 0 || i + 1 >= s.len() {
        s.len() as int
    } else if nick_char(s[i + 1]) != nick_char(s[i]) {
        i + 1
    } else {
        run_end(s, i + 1)
    }
}

/// The maximal runs of nick characters and of other characters in
/// `s[i..]`, in order.
pub open spec fn runs_from(s: Seq<char>, i: int) -> Seq<Seq<char>>
    decreases s.len() - i,
{
    if i < 0 || i >= s.len() {
        Seq::empty()
    } else if run_end(s, i) <= i || run_end(s, i) > s.len() {
        Seq::empty()
    } else {
        seq![s.subrange(i, run_end(s, i))] + runs_from(s, run_end(s, i))
    }
}

/// The maximal runs of nick characters and of other characters in `s`.
pub open spec fn nick_runs(s: Seq<char>) -> Seq<Seq<char>> {
    runs_from(s, 0)
}

pub proof fn lemma_run_end(s: Seq<char>, i: int)
    requires
        0 <= i < s.len(),
    ensures
        i < run_end(s, i) <= s.len(),
        forall|k: int| i <= k < run_end(s, i) ==> nick_char(#[trigger] s[k]) == nick_char(s[i]),
        run_end(s, i) < s.len() ==> nick_char(s[run_end(s, i)]) != nick_char(s[i]),
    decreases s.len() - i,
{
    if i + 1 < s.len() && nick_char(s[i + 1]) == nick_char(s[i]) {
        lemma_run_end(s, i + 1);
    }
}

/// Concatenation of a sequence of strings.
pub open spec fn flatten(v: Seq<Seq<char>>) -> Seq<char>
    decreases v.len(),
{
    if v.len() == 0 {
        Seq::empty()
    } else {
        v[0] + flatten(v.drop_first())
    }
}

proof fn lemma_runs_from_join(s: Seq<char>, i: int)
    requires
        0 <= i <= s.len(),
    ensures
        flatten(runs_from(s, i)) == s.skip(i),
        forall|k: int| 0 <= k < runs_from(s, i).len() ==> #[trigger] runs_from(s, i)[k].len() > 0,
    decreases s.len() - i,
{
    if i < s.len() {
        lemma_run_end(s, i);
        let e = run_end(s, i);
        lemma_runs_from_join(s, e);
        let r = runs_from(s, i);
        assert(r.drop_first() =~= runs_from(s, e));
        assert(s.skip(i) =~= s.subrange(i, e) + s.skip(e));
    } else {
        assert(s.skip(i) =~= Seq::<char>::empty());
    }
}

/// Splitting a string into nick runs loses no character and adds none, and
/// no run is empty.
pub proof fn lemma_nick_runs_join(s: Seq<char>)
    ensures
        flatten(nick_runs(s)) == s,
        forall|k: int| 0 <= k < nick_runs(s).len() ==> #[trigger] nick_runs(s)[k].len() > 0,
{
    lemma_runs_from_join(s, 0);
    assert(s.skip(0) =~= s);
}

/// Yields the maximal runs of nick characters and of other characters of a
/// string, in order.
pub struct SplitNicks {
    chars: Vec<char>,
    pos: usize,
}

impl SplitNicks {
    pub closed spec fn wf(&self) -> bool {
        self.pos <= self.chars@.len()
    }

    /// The runs still to come.
    pub closed spec fn remaining(&self) -> Seq<Seq<char>> {
        runs_from(self.chars@, self.pos as int)
    }

    pub fn next(&mut self) -> (r: Option<String>)
        requires
            old(self).wf(),
        ensures
            final(self).wf(),
            old(self).remaining().len() == 0 ==> r is None && final(self).remaining().len() == 0,
            old(self).remaining().len() > 0 ==> (r matches Some(t) && t@ == old(self).remaining()[0]
                && final(self).remaining() == old(self).remaining().drop_first()),
    {
        let n = self.chars.len();
        if self.pos >= n {
            return None;
        }
        proof {
            lemma_run_end(self.chars@, self.pos as int);
        }
        let start = self.pos;
        let class = is_nick_char(self.chars[start]);
        let mut end = start + 1;
        while end < n && is_nick_char(self.chars[end]) == class
            invariant
                start < end <= n,
                n == self.chars@.len(),
                class == nick_char(self.chars@[start as int]),
                class == nick_char(self.chars@[end - 1]),
                run_end(self.chars@, start as int) == run_end(self.chars@, end as int - 1),
                end < n ==> run_end(self.chars@, end as int - 1) >= end,
            decreases n - end,
        {
            proof {
                lemma_run_end(self.chars@, end as int);
            }
            end = end + 1;
        }
        let t = string_of(&self.chars, start, end);
        self.pos = end;
        Some(t)
    }
}

pub fn split_nicks(s: &str) -> (r: SplitNicks)
    ensures
        r.wf(),
        r.remaining() == nick_runs(s@),
{
    SplitNicks { chars: chars_of(s), pos: 0 }
}

} // verus!
