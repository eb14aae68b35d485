use vstd::prelude::*;

verus! {

/// The code points with the Unicode `White_Space` property, the set that
/// `char::is_whitespace` recognises.
pub open spec fn is_space(c: char) -> bool {
    let n = c as u32;
    (0x9 <= n && n <= 0xd) || n == 0x20 || n == 0x85 || n == 0xa0 || n == 0x1680 || (0x2000 <= n
        && n <= 0x200a) || n == 0x2028 || n == 0x2029 || n == 0x202f || n == 0x205f || n == 0x3000
}

/// Whether `c` is whitespace, in the sense of `is_space`.
pub fn is_whitespace(c: char) -> (r: bool)
    ensures
        r == is_space(c),
{
    let n = c as u32;
    (0x9 <= n && n <= 0xd) || n == 0x20 || n == 0x85 || n == 0xa0 || n == 0x1680 || (0x2000 <= n
        && n <= 0x200a) || n == 0x2028 || n == 0x2029 || n == 0x202f || n == 0x205f || n == 0x3000
}

/// An ASCII decimal digit.
pub open spec fn is_digit(c: char) -> bool {
    '0' as u32 <= c as u32 && c as u32 <= '9' as u32
}

/// An ASCII letter.
pub open spec fn is_letter(c: char) -> bool {
    ('a' as u32 <= c as u32 && c as u32 <= 'z' as u32) || ('A' as u32 <= c as u32 && c as u32
        <= 'Z' as u32)
}

/// The predicate `is_digit`, as a value.
pub open spec fn digit_pred() -> spec_fn(char) -> bool {
    |c: char| is_digit(c)
}

/// The predicate `is_letter`, as a value.
pub open spec fn letter_pred() -> spec_fn(char) -> bool {
    |c: char| is_letter(c)
}

/// Whether `c` is an ASCII digit.
pub fn is_ascii_digit(c: char) -> (r: bool)
    ensures
        r == is_digit(c),
{
    '0' as u32 <= c as u32 && c as u32 <= '9' as u32
}

/// Whether `c` is an ASCII letter.
pub fn is_ascii_letter(c: char) -> (r: bool)
    ensures
        r == is_letter(c),
{
    ('a' as u32 <= c as u32 && c as u32 <= 'z' as u32) || ('A' as u32 <= c as u32 && c as u32
        <= 'Z' as u32)
}

/// Length of the longest prefix of `s` whose characters all satisfy `f`.
pub open spec fn run_len(s: Seq<char>, f: spec_fn(char) -> bool) -> nat
    decreases s.len(),
{
    if s.len() > 0 && f(s[0]) {
        1 + run_len(s.drop_first(), f)
    } else {
        0
    }
}

/// First position at or after `p` where the characters of `t` stop satisfying `f`.
pub open spec fn run_end(t: Seq<char>, p: int, f: spec_fn(char) -> bool) -> int {
    p + run_len(t.subrange(p, t.len() as int), f)
}

/// The end of the run of `f` at `p`, and past the character that stops it,
/// if any.
pub open spec fn skip_past(t: Seq<char>, p: int, f: spec_fn(char) -> bool) -> int {
    let a = run_end(t, p, f);
    if a < t.len() {
        a + 1
    } else {
        a
    }
}

/// A run of `k` characters that satisfy `f`, followed by the end or by one
/// that does not, is the longest such prefix.
pub proof fn lemma_run_len(s: Seq<char>, f: spec_fn(char) -> bool, k: int)
    requires
        0 <= k <= s.len(),
        forall|i: int| 0 <= i < k ==> f(#[trigger] s[i]),
        k == s.len() || !f(s[k]),
    ensures
        run_len(s, f) == k,
    decreases k,
{
    if k > 0 {
        lemma_run_len(s.drop_first(), f, k - 1);
    }
}

/// `run_end` located from the two facts that define a maximal run.
pub proof fn lemma_run_end(t: Seq<char>, p: int, q: int, f: spec_fn(char) -> bool)
    requires
        0 <= p <= q <= t.len(),
        forall|i: int| p <= i < q ==> f(#[trigger] t[i]),
        q == t.len() || !f(t[q]),
    ensures
        run_end(t, p, f) == q,
{
    let s = t.subrange(p, t.len() as int);
    assert forall|i: int| 0 <= i < q - p implies f(#[trigger] s[i]) by {
        assert(s[i] == t[p + i]);
    }
    if q < t.len() {
        assert(s[q - p] == t[q]);
    }
    lemma_run_len(s, f, q - p);
}

/// The bounds of a run.
pub proof fn lemma_run_end_bounds(t: Seq<char>, p: int, f: spec_fn(char) -> bool)
    requires
        0 <= p <= t.len(),
    ensures
        p <= run_end(t, p, f) <= t.len(),
        p < t.len() && f(t[p]) ==> p < run_end(t, p, f),
        forall|i: int| p <= i < run_end(t, p, f) ==> f(#[trigger] t[i]),
        run_end(t, p, f) < t.len() ==> !f(t[run_end(t, p, f)]),
    decreases t.len() - p,
{
    let s = t.subrange(p, t.len() as int);
    if s.len() > 0 && f(s[0]) {
        assert(s[0] == t[p]);
        lemma_run_end_bounds(t, p + 1, f);
        assert(t.subrange(p + 1, t.len() as int) =~= s.drop_first());
    } else if s.len() > 0 {
        assert(s[0] == t[p]);
    }
}

/// The predicate `is_space`, as a value.
pub open spec fn space_pred() -> spec_fn(char) -> bool {
    |c: char| is_space(c)
}

/// `s` without the whitespace at its end.
pub open spec fn trim_end_spec(s: Seq<char>) -> Seq<char>
    decreases s.len(),
{
    if s.len() > 0 && is_space(s.last()) {
        trim_end_spec(s.drop_last())
    } else {
        s
    }
}

/// `s` without the whitespace at its start.
pub open spec fn trim_start_spec(s: Seq<char>) -> Seq<char> {
    s.subrange(run_len(s, space_pred()) as int, s.len() as int)
}

/// `s` without the whitespace at either end.
pub open spec fn trim_spec(s: Seq<char>) -> Seq<char> {
    trim_end_spec(trim_start_spec(s))
}

/// Cutting the whitespace from the end leaves the prefix up to the last
/// character that is not whitespace.
pub proof fn lemma_trim_end(u: Seq<char>, k: int)
    requires
        0 <= k <= u.len(),
        forall|i: int| k <= i < u.len() ==> is_space(#[trigger] u[i]),
        k == 0 || !is_space(u[k - 1]),
    ensures
        trim_end_spec(u) == u.subrange(0, k),
    decreases u.len(),
{
    if u.len() > k {
        lemma_trim_end(u.drop_last(), k);
        assert(u.drop_last().subrange(0, k) =~= u.subrange(0, k));
    } else {
        assert(u.subrange(0, k) =~= u);
    }
}

/// `s` without the whitespace at its end.
pub fn trim_end(s: &str) -> (r: &str)
    ensures
        r@ == trim_end_spec(s@),
{
    let n = s.unicode_len();
    let mut b: usize = n;
    while b > 0 && is_whitespace(s.get_char(b - 1))
        invariant
            b <= n,
            n == s@.len(),
            forall|i: int| b <= i < n ==> is_space(#[trigger] s@[i]),
        decreases b,
    {
        b = b - 1;
    }
    proof {
        lemma_trim_end(s@, b as int);
    }
    s.substring_char(0, b)
}

/// `s` without the whitespace at either end.
pub fn trim(s: &str) -> (r: &str)
    ensures
        r@ == trim_spec(s@),
{
    let n = s.unicode_len();
    let mut a: usize = 0;
    while a < n && is_whitespace(s.get_char(a))
        invariant
            a <= n,
            n == s@.len(),
            forall|i: int| 0 <= i < a ==> is_space(#[trigger] s@[i]),
        decreases n - a,
    {
        a = a + 1;
    }
    proof {
        lemma_run_len(s@, space_pred(), a as int);
    }
    trim_end(s.substring_char(a, n))
}

/// Whether two texts hold the same characters.
pub fn str_eq(a: &str, b: &str) -> (r: bool)
    ensures
        r == (a@ == b@),
{
    let n = a.unicode_len();
    if n != b.unicode_len() {
        return false;
    }
    let mut i: usize = 0;
    while i < n
        invariant
            i <= n,
            n == a@.len(),
            n == b@.len(),
            forall|j: int| 0 <= j < i ==> a@[j] == b@[j],
        decreases n - i,
    {
        if a.get_char(i) != b.get_char(i) {
            return false;
        }
        i = i + 1;
    }
    assert(a@ =~= b@);
    true
}

/// A cursor over a text, counted in characters. Parse functions consume
/// characters by moving the cursor forward.
pub struct Parser {
    pub input: String,
    cursor: usize,
}

impl Parser {
    /// Position of the cursor, in characters from the start of `input`.
    pub closed spec fn pos(&self) -> int {
        self.cursor as int
    }

    /// The characters of the text.
    pub closed spec fn text(&self) -> Seq<char> {
        self.input@
    }

    /// The cursor lies within the text or just past its end.
    pub open spec fn wf(&self) -> bool {
        0 <= self.pos() <= self.text().len() && self.pos() <= usize::MAX
    }

    pub fn new(input: String) -> (r: Parser)
        ensures
            r.wf(),
            r.text() == input@,
            r.pos() == 0,
    {
        Parser { input: input, cursor: 0 }
    }

    /// Returns the character at the cursor and moves past it; `None` at the end.
    pub fn consume_char(&mut self) -> (r: Option<char>)
        requires
            old(self).wf(),
        ensures
            final(self).wf(),
            final(self).text() == old(self).text(),
            old(self).pos() < old(self).text().len() ==> r == Some(old(self).text()[old(self).pos()])
                && final(self).pos() == old(self).pos() + 1,
            old(self).pos() >= old(self).text().len() ==> r is None && final(self).pos()
                == old(self).pos(),
    {
        let len = self.input.as_str().unicode_len();
        if self.cursor < len {
            let c = self.input.as_str().get_char(self.cursor);
            self.cursor = self.cursor + 1;
            Some(c)
        } else {
            None
        }
    }

    /// Returns the character at the cursor without moving it.
    pub fn peek_char(&mut self) -> (r: Option<char>)
        requires
            old(self).wf(),
        ensures
            *final(self) == *old(self),
            old(self).pos() < old(self).text().len() ==> r == Some(old(self).text()[old(self).pos()]),
            old(self).pos() >= old(self).text().len() ==> r is None,
    {
        let len = self.input.as_str().unicode_len();
        if self.cursor < len {
            Some(self.input.as_str().get_char(self.cursor))
        } else {
            None
        }
    }

    /// Returns the character one past the cursor without moving it.
    pub fn peek_next_char(&mut self) -> (r: Option<char>)
        requires
            old(self).wf(),
        ensures
            *final(self) == *old(self),
            old(self).pos() + 1 < old(self).text().len() ==> r == Some(
                old(self).text()[old(self).pos() + 1],
            ),
            old(self).pos() + 1 >= old(self).text().len() ==> r is None,
    {
        let len = self.input.as_str().unicode_len();
        if self.cursor < len && self.cursor + 1 < len {
            Some(self.input.as_str().get_char(self.cursor + 1))
        } else {
            None
        }
    }

    /// Whether the whole text has been consumed.
    pub fn end_of_string(&mut self) -> (r: bool)
        requires
            old(self).wf(),
        ensures
            *final(self) == *old(self),
            r == (old(self).pos() >= old(self).text().len()),
    {
        self.cursor >= self.input.as_str().unicode_len()
    }

    /// Consumes characters while `cond` holds of the one at the cursor, and
    /// returns them. Stops at the end of the text.
    pub fn consume_while<F: Fn(char) -> bool>(&mut self, cond: F) -> (r: String)
        requires
            old(self).wf(),
            forall|c: char| cond.requires((c,)),
        ensures
            final(self).wf(),
            final(self).text() == old(self).text(),
            old(self).pos() <= final(self).pos(),
            r@ == old(self).text().subrange(old(self).pos(), final(self).pos()),
            forall|i: int|
                old(self).pos() <= i < final(self).pos() ==> cond.ensures(
                    (#[trigger] old(self).text()[i],),
                    true,
                ),
            final(self).pos() < old(self).text().len() ==> cond.ensures(
                (old(self).text()[final(self).pos()],),
                false,
            ),
            // A predicate that fails at once consumes nothing.
            old(self).pos() < old(self).text().len() && (forall|b: bool|
                cond.ensures((old(self).text()[old(self).pos()],), b) ==> !b) ==> r@.len() == 0
                && final(self).pos() == old(self).pos(),
    {
        let start = self.cursor;
        let len = self.input.as_str().unicode_len();
        loop
            invariant
                self.wf(),
                self.text() == old(self).text(),
                len == self.text().len(),
                start == old(self).pos(),
                start <= self.pos(),
                forall|c: char| cond.requires((c,)),
                forall|i: int| start <= i < self.pos() ==> cond.ensures((#[trigger] self.text()[i],), true),
            ensures
                self.wf(),
                self.text() == old(self).text(),
                start <= self.pos(),
                forall|i: int| start <= i < self.pos() ==> cond.ensures((#[trigger] self.text()[i],), true),
                self.pos() < len ==> cond.ensures((self.text()[self.pos()],), false),
            decreases len - self.cursor,
        {
            if self.cursor >= len {
                break;
            }
            let c = self.input.as_str().get_char(self.cursor);
            if !cond(c) {
                break;
            }
            self.cursor = self.cursor + 1;
        }
        proof {
            if start < self.pos() {
                assert(cond.ensures((self.text()[start as int],), true));
            }
        }
        String::from_str(self.input.as_str().substring_char(start, self.cursor))
    }

    /// Consumes whitespace up to the next other character.
    pub fn consume_whitespace(&mut self)
        requires
            old(self).wf(),
        ensures
            final(self).wf(),
            final(self).text() == old(self).text(),
            final(self).pos() == run_end(old(self).text(), old(self).pos(), space_pred()),
            // Nothing moves where the next character is not whitespace.
            old(self).pos() < old(self).text().len() && !is_space(old(self).text()[old(self).pos()])
                ==> final(self).pos() == old(self).pos(),
    {
        let ghost t = self.text();
        let ghost p = self.pos();
        self.consume_while(|c: char| -> (r: bool) ensures r == is_space(c) { is_whitespace(c) });
        proof {
            lemma_run_end(t, p, self.pos(), space_pred());
        }
    }

    /// Consumes and returns the characters up to the next whitespace.
    pub fn consume_until_whitespace(&mut self) -> (r: String)
        requires
            old(self).wf(),
        ensures
            final(self).wf(),
            final(self).text() == old(self).text(),
            final(self).pos() == run_end(old(self).text(), old(self).pos(), |c: char| !is_space(c)),
            r@ == old(self).text().subrange(old(self).pos(), final(self).pos()),
    {
        let ghost t = self.text();
        let ghost p = self.pos();
        let r = self.consume_while(|c: char| -> (r: bool) ensures r == !is_space(c) { !is_whitespace(c) });
        proof {
            lemma_run_end(t, p, self.pos(), |c: char| !is_space(c));
        }
        r
    }

    /// Consumes the character at the cursor if it is `test`; returns whether it did.
    pub fn consume_if_char_matches(&mut self, test: char) -> (r: bool)
        requires
            old(self).wf(),
        ensures
            final(self).wf(),
            final(self).text() == old(self).text(),
            r == (old(self).pos() < old(self).text().len() && old(self).text()[old(self).pos()] == test),
            r ==> final(self).pos() == old(self).pos() + 1,
            !r ==> final(self).pos() == old(self).pos(),
    {
        match self.peek_char() {
            Some(c) => {
                if c == test {
                    self.consume_char();
                    true
                } else {
                    false
                }
            },
            None => false,
        }
    }
}

} // verus!
