//! Characters and runs of characters: the ground the request grammar stands on.
//!
//! A text is modelled as a `Seq<char>`. The executable functions work on a
//! `Vec<char>` and speak of ranges of it by their bounds.

use vstd::prelude::*;

verus! {

broadcast use vstd::string::group_string_axioms;

/// Whether `c` has the Unicode property White_Space.
pub open spec fn is_whitespace(c: char) -> bool {
    let n = c as u32;
    ||| 0x09 <= n <= 0x0D
    ||| n == 0x20
    ||| n == 0x85
    ||| n == 0xA0
    ||| n == 0x1680
    ||| 0x2000 <= n <= 0x200A
    ||| n == 0x2028
    ||| n == 0x2029
    ||| n == 0x202F
    ||| n == 0x205F
    ||| n == 0x3000
}

/// Tests a character for the Unicode property White_Space.
pub fn char_is_whitespace(c: char) -> (r: bool)
    ensures
        r == is_whitespace(c),
{
    let n: u32 = c as u32;
    (0x09 <= n && n <= 0x0D) || n == 0x20 || n == 0x85 || n == 0xA0 || n == 0x1680 || (0x2000 <= n
        && n <= 0x200A) || n == 0x2028 || n == 0x2029 || n == 0x202F || n == 0x205F || n == 0x3000
}

/// A set of characters that a scan runs over.
#[derive(Clone, Copy, Debug)]
pub enum CharClass {
    /// The characters with the property White_Space.
    Whitespace,
    /// The characters without it.
    NonWhitespace,
    /// Every character but the given one.
    Except(char),
}

impl CharClass {
    /// Whether `c` belongs to the class.
    pub open spec fn holds(self, c: char) -> bool {
        match self {
            CharClass::Whitespace => is_whitespace(c),
            CharClass::NonWhitespace => !is_whitespace(c),
            CharClass::Except(x) => c != x,
        }
    }

    /// Tests whether `c` belongs to the class.
    pub fn contains(&self, c: char) -> (r: bool)
        ensures
            r == self.holds(c),
    {
        match self {
            CharClass::Whitespace => char_is_whitespace(c),
            CharClass::NonWhitespace => !char_is_whitespace(c),
            CharClass::Except(x) => c != *x,
        }
    }
}

/// The length of the longest prefix of `s` whose characters all belong to `class`.
pub open spec fn run_len(s: Seq<char>, class: CharClass) -> nat
    decreases s.len(),
{
    if s.len() == 0 || !class.holds(s[0]) {
        0
    } else {
        1 + run_len(s.drop_first(), class)
    }
}

/// A run ends inside the text, covers only characters of the class, and stops
/// at the first character outside it.
pub proof fn lemma_run_len_bounds(s: Seq<char>, class: CharClass)
    ensures
        run_len(s, class) <= s.len(),
        forall|j: int| 0 <= j < run_len(s, class) ==> class.holds(#[trigger] s[j]),
        run_len(s, class) < s.len() ==> !class.holds(s[run_len(s, class) as int]),
    decreases s.len(),
{
    if s.len() != 0 && class.holds(s[0]) {
        let t = s.drop_first();
        lemma_run_len_bounds(t, class);
        assert forall|j: int| 0 <= j < run_len(s, class) implies class.holds(#[trigger] s[j]) by {
            if j > 0 {
                assert(s[j] == t[j - 1]);
            }
        }
        assert(run_len(s, class) < s.len() ==> s[run_len(s, class) as int] == t[run_len(t, class) as int]);
    }
}

/// A prefix of the class that cannot be extended is the run.
pub proof fn lemma_run_len_is(s: Seq<char>, class: CharClass, n: int)
    requires
        0 <= n <= s.len(),
        forall|j: int| 0 <= j < n ==> class.holds(#[trigger] s[j]),
        n < s.len() ==> !class.holds(s[n]),
    ensures
        run_len(s, class) == n,
    decreases s.len(),
{
    if n > 0 {
        let t = s.drop_first();
        assert forall|j: int| 0 <= j < n - 1 implies class.holds(#[trigger] t[j]) by {
            assert(t[j] == s[j + 1]);
        }
        lemma_run_len_is(t, class, n - 1);
    }
}

/// Runs from `from` over the characters of `class`, no further than `to`, and
/// returns where the run ends.
pub fn scan(text: &Vec<char>, from: usize, to: usize, class: CharClass) -> (r: usize)
    requires
        from <= to <= text.len(),
    ensures
        r == from + run_len(text@.subrange(from as int, to as int), class),
        from <= r <= to,
        forall|j: int| from <= j < r ==> class.holds(#[trigger] text@[j]),
        r < to ==> !class.holds(text@[r as int]),
{
    let mut i: usize = from;
    while i < to && class.contains(text[i])
        invariant
            from <= i <= to <= text.len(),
            forall|j: int| from <= j < i ==> class.holds(#[trigger] text@[j]),
        decreases to - i,
    {
        i += 1;
    }
    proof {
        let s = text@.subrange(from as int, to as int);
        assert forall|j: int| 0 <= j < i - from implies class.holds(#[trigger] s[j]) by {
            assert(s[j] == text@[from + j]);
        }
        lemma_run_len_is(s, class, i - from);
    }
    i
}

/// The number of characters before the first line feed of `s`.
pub open spec fn line_end(s: Seq<char>) -> nat {
    run_len(s, CharClass::Except('\n'))
}

/// `line` without the carriage return that ends it, if one does.
pub open spec fn strip_cr(line: Seq<char>) -> Seq<char> {
    if line.len() > 0 && line.last() == '\r' {
        line.drop_last()
    } else {
        line
    }
}

/// The first line of a non-empty text, without its terminator. A line ends
/// at a line feed; a carriage return just before the line feed belongs to
/// the terminator. A last line with no line feed is taken as it stands.
pub open spec fn first_line(s: Seq<char>) -> Seq<char> {
    let n = line_end(s);
    if n < s.len() {
        strip_cr(s.take(n as int))
    } else {
        s
    }
}

/// What follows the first line of `s` and its terminator.
pub open spec fn after_first_line(s: Seq<char>) -> Seq<char> {
    let n = line_end(s);
    if n < s.len() {
        s.skip(n as int + 1)
    } else {
        Seq::empty()
    }
}

/// The lines of a text, in order. A line feed at the very end starts no
/// further line, and the empty text has no line.
pub open spec fn lines(s: Seq<char>) -> Seq<Seq<char>>
    decreases s.len(),
{
    if s.len() == 0 {
        Seq::empty()
    } else {
        seq![first_line(s)] + lines(after_first_line(s))
    }
}

/// A text that starts with a line and its line feed has that line first,
/// without the carriage return that may end it, and then the lines of
/// what follows the line feed.
pub proof fn lemma_lines_of_terminated_line(line: Seq<char>, rest: Seq<char>)
    requires
        forall|j: int| 0 <= j < line.len() ==> #[trigger] line[j] != '\n',
    ensures
        lines(line + seq!['\n'] + rest) == seq![strip_cr(line)] + lines(rest),
{
    let s = line + seq!['\n'] + rest;
    let class = CharClass::Except('\n');
    assert forall|j: int| 0 <= j < line.len() implies class.holds(#[trigger] s[j]) by {
        assert(s[j] == line[j]);
    }
    assert(s[line.len() as int] == '\n');
    lemma_run_len_is(s, class, line.len() as int);
    assert(s.take(line.len() as int) =~= line);
    assert(s.skip(line.len() as int + 1) =~= rest);
}

/// A text with no line feed in it, if it is not empty, is one line, taken
/// as it stands.
pub proof fn lemma_lines_of_last_line(line: Seq<char>)
    requires
        line.len() > 0,
        forall|j: int| 0 <= j < line.len() ==> #[trigger] line[j] != '\n',
    ensures
        lines(line) == seq![line],
{
    lemma_run_len_is(line, CharClass::Except('\n'), line.len() as int);
    assert(lines(after_first_line(line)) =~= Seq::<Seq<char>>::empty());
    assert(lines(line) =~= seq![line]);
}

/// Finds the line that starts at `pos`: returns where its content ends and
/// where the next line starts.
pub fn next_line(text: &Vec<char>, pos: usize) -> (r: (usize, usize))
    requires
        pos < text.len(),
    ensures
        pos <= r.0 <= r.1 <= text.len(),
        pos < r.1,
        text@.subrange(pos as int, r.0 as int) == first_line(text@.skip(pos as int)),
        text@.skip(r.1 as int) == after_first_line(text@.skip(pos as int)),
{
    let len: usize = text.len();
    let nl: usize = scan(text, pos, len, CharClass::Except('\n'));
    let ghost s = text@.skip(pos as int);
    proof {
        assert(s =~= text@.subrange(pos as int, len as int));
    }
    if nl < len {
        let end: usize = if nl > pos && text[nl - 1] == '\r' {
            nl - 1
        } else {
            nl
        };
        proof {
            let line = s.take(nl - pos);
            assert(line =~= text@.subrange(pos as int, nl as int));
            assert(strip_cr(line) =~= text@.subrange(pos as int, end as int));
            assert(s.skip(nl - pos + 1) =~= text@.skip(nl + 1));
        }
        (end, nl + 1)
    } else {
        proof {
            assert(text@.skip(len as int) =~= Seq::<char>::empty());
        }
        (len, len)
    }
}

/// The maximal runs of non-whitespace characters of `s`, in order.
pub open spec fn tokens(s: Seq<char>) -> Seq<Seq<char>>
    decreases s.len(),
    via tokens_terminates
{
    if s.len() == 0 {
        Seq::empty()
    } else if is_whitespace(s[0]) {
        tokens(s.drop_first())
    } else {
        let n = run_len(s, CharClass::NonWhitespace);
        seq![s.take(n as int)] + tokens(s.skip(n as int))
    }
}

#[via_fn]
proof fn tokens_terminates(s: Seq<char>) {
    lemma_run_len_bounds(s, CharClass::NonWhitespace);
}

/// Whitespace in front of a text adds no token.
pub proof fn lemma_tokens_skip_whitespace(s: Seq<char>, k: int)
    requires
        0 <= k <= s.len(),
        forall|j: int| 0 <= j < k ==> is_whitespace(#[trigger] s[j]),
    ensures
        tokens(s) == tokens(s.skip(k)),
    decreases k,
{
    if k == 0 {
        assert(s.skip(0) =~= s);
    } else {
        let t = s.drop_first();
        assert(is_whitespace(s[0]));
        assert forall|j: int| 0 <= j < k - 1 implies is_whitespace(#[trigger] t[j]) by {
            assert(t[j] == s[j + 1]);
        }
        lemma_tokens_skip_whitespace(t, k - 1);
        assert(t.skip(k - 1) =~= s.skip(k));
    }
}

/// A word in front of a text that is empty or starts with whitespace is
/// the first token, and the tokens of that text follow.
pub proof fn lemma_tokens_of_word_then(word: Seq<char>, rest: Seq<char>)
    requires
        is_word(word),
        rest.len() > 0 ==> is_whitespace(rest[0]),
    ensures
        tokens(word + rest) == seq![word] + tokens(rest),
{
    let s = word + rest;
    let class = CharClass::NonWhitespace;
    assert forall|j: int| 0 <= j < word.len() implies class.holds(#[trigger] s[j]) by {
        assert(s[j] == word[j]);
    }
    if rest.len() > 0 {
        assert(s[word.len() as int] == rest[0]);
    }
    lemma_run_len_is(s, class, word.len() as int);
    assert(s[0] == word[0]);
    assert(s.take(word.len() as int) =~= word);
    assert(s.skip(word.len() as int) =~= rest);
}

/// Whether `s` is a word: not empty, and free of whitespace.
pub open spec fn is_word(s: Seq<char>) -> bool {
    &&& s.len() > 0
    &&& forall|j: int| 0 <= j < s.len() ==> !is_whitespace(#[trigger] s[j])
}

/// Every token is a word.
pub proof fn lemma_tokens_are_words(s: Seq<char>, i: int)
    requires
        0 <= i < tokens(s).len(),
    ensures
        is_word(tokens(s)[i]),
    decreases s.len(),
{
    if is_whitespace(s[0]) {
        lemma_tokens_are_words(s.drop_first(), i);
    } else {
        lemma_run_len_bounds(s, CharClass::NonWhitespace);
        let n = run_len(s, CharClass::NonWhitespace) as int;
        if i > 0 {
            lemma_tokens_are_words(s.skip(n), i - 1);
        }
    }
}

/// Finds the first token of the range from `from` to `to`: returns its
/// bounds, or `None` where the range holds whitespace only.
pub fn next_token(text: &Vec<char>, from: usize, to: usize) -> (r: Option<(usize, usize)>)
    requires
        from <= to <= text.len(),
    ensures
        match r {
            None => {
                &&& tokens(text@.subrange(from as int, to as int)) == Seq::<Seq<char>>::empty()
                &&& forall|j: int| from <= j < to ==> is_whitespace(#[trigger] text@[j])
            },
            Some((a, b)) => {
                &&& from <= a < b <= to
                &&& a == from + run_len(text@.subrange(from as int, to as int), CharClass::Whitespace)
                &&& b == a + run_len(text@.subrange(a as int, to as int), CharClass::NonWhitespace)
                &&& tokens(text@.subrange(from as int, to as int)) == seq![
                    text@.subrange(a as int, b as int),
                ] + tokens(text@.subrange(b as int, to as int))
            },
        },
{
    let a: usize = scan(text, from, to, CharClass::Whitespace);
    let ghost s = text@.subrange(from as int, to as int);
    let ghost t = text@.subrange(a as int, to as int);
    proof {
        assert forall|j: int| 0 <= j < a - from implies is_whitespace(#[trigger] s[j]) by {
            assert(s[j] == text@[from + j]);
        }
        lemma_tokens_skip_whitespace(s, a - from);
        assert(s.skip(a - from) =~= t);
    }
    if a == to {
        None
    } else {
        let b: usize = scan(text, a, to, CharClass::NonWhitespace);
        proof {
            assert(t[0] == text@[a as int]);
            assert(!is_whitespace(t[0]));
            assert(t.take(b - a) =~= text@.subrange(a as int, b as int));
            assert(t.skip(b - a) =~= text@.subrange(b as int, to as int));
        }
        Some((a, b))
    }
}

/// `s` without the whitespace in front of it.
pub open spec fn trim_start(s: Seq<char>) -> Seq<char> {
    s.skip(run_len(s, CharClass::Whitespace) as int)
}

/// `s` without the whitespace at its end.
pub open spec fn trim_end(s: Seq<char>) -> Seq<char>
    decreases s.len(),
{
    if s.len() > 0 && is_whitespace(s.last()) {
        trim_end(s.drop_last())
    } else {
        s
    }
}

/// `s` without the whitespace on either side of it.
pub open spec fn trim(s: Seq<char>) -> Seq<char> {
    trim_end(trim_start(s))
}

/// Whether `s` neither starts nor ends with whitespace.
pub open spec fn is_trimmed(s: Seq<char>) -> bool {
    s.len() > 0 ==> !is_whitespace(s[0]) && !is_whitespace(s.last())
}

/// Trimming at the end leaves a prefix that does not end with whitespace.
pub proof fn lemma_trim_end_is_prefix(s: Seq<char>)
    ensures
        trim_end(s).len() <= s.len(),
        trim_end(s) == s.take(trim_end(s).len() as int),
        trim_end(s).len() > 0 ==> !is_whitespace(trim_end(s).last()),
    decreases s.len(),
{
    if s.len() > 0 && is_whitespace(s.last()) {
        let t = s.drop_last();
        lemma_trim_end_is_prefix(t);
        assert(t.take(trim_end(t).len() as int) =~= s.take(trim_end(t).len() as int));
    } else {
        assert(s.take(s.len() as int) =~= s);
    }
}

/// What trimming leaves is trimmed.
pub proof fn lemma_trim_is_trimmed(s: Seq<char>)
    ensures
        is_trimmed(trim(s)),
{
    lemma_run_len_bounds(s, CharClass::Whitespace);
    let t = trim_start(s);
    lemma_trim_end_is_prefix(t);
    if trim(s).len() > 0 {
        assert(trim(s)[0] == t[0]);
        assert(t[0] == s[run_len(s, CharClass::Whitespace) as int]);
    }
}

/// Trims the range from `from` to `to`: returns the bounds of what is left.
pub fn trim_range(text: &Vec<char>, from: usize, to: usize) -> (r: (usize, usize))
    requires
        from <= to <= text.len(),
    ensures
        from <= r.0 <= r.1 <= to,
        r.0 == from + run_len(text@.subrange(from as int, to as int), CharClass::Whitespace),
        text@.subrange(r.0 as int, r.1 as int) == trim(text@.subrange(from as int, to as int)),
{
    let a: usize = scan(text, from, to, CharClass::Whitespace);
    proof {
        assert(text@.subrange(from as int, to as int).skip(a - from) =~= text@.subrange(
            a as int,
            to as int,
        ));
    }
    let mut b: usize = to;
    while b > a && char_is_whitespace(text[b - 1])
        invariant
            a <= b <= to <= text.len(),
            trim_end(text@.subrange(a as int, b as int)) == trim_end(
                text@.subrange(a as int, to as int),
            ),
        decreases b,
    {
        proof {
            let cur = text@.subrange(a as int, b as int);
            assert(cur.last() == text@[b - 1]);
            assert(cur.drop_last() =~= text@.subrange(a as int, b - 1));
        }
        b -= 1;
    }
    proof {
        let cur = text@.subrange(a as int, b as int);
        if b > a {
            assert(cur.last() == text@[b - 1]);
        }
        assert(trim_end(cur) == cur);
    }
    (a, b)
}

/// `String::push` appends one character to the string.
pub assume_specification[ String::push ](s: &mut String, c: char)
    ensures
        final(s)@ == old(s)@.push(c),
;

/// Copies the range from `from` to `to` into a string.
pub fn string_of(text: &Vec<char>, from: usize, to: usize) -> (r: String)
    requires
        from <= to <= text.len(),
    ensures
        r@ == text@.subrange(from as int, to as int),
{
    let mut out = String::new();
    let mut i: usize = from;
    while i < to
        invariant
            from <= i <= to <= text.len(),
            out@ == text@.subrange(from as int, i as int),
        decreases to - i,
    {
        out.push(text[i]);
        proof {
            assert(text@.subrange(from as int, i as int).push(text@[i as int]) =~= text@.subrange(
                from as int,
                i + 1,
            ));
        }
        i += 1;
    }
    out
}

/// The characters of `s`, in order.
pub fn to_chars(s: &str) -> (r: Vec<char>)
    ensures
        r@ == s@,
{
    let mut out: Vec<char> = Vec::new();
    for c in it: s.chars()
        invariant
            it.seq() == s@,
            out@ == s@.take(it.index()),
    {
        proof {
            assert(s@.take(it.index()).push(c) =~= s@.take(it.index() + 1));
        }
        out.push(c);
    }
    proof {
        assert(s@.take(s@.len() as int) =~= s@);
    }
    out
}

} // verus!
