use vstd::prelude::*;
use vstd::string::StrSliceExecFns;

verus! {

/// What a named animation of an animation file is.
pub enum ParsedAnimation<'a> {
    /// The mirror image of the animation at this position of the name list.
    Flip(usize),
    /// Frame image paths (each once) and, per frame, the position of its path.
    Standard(Vec<&'a str>, Vec<usize>),
}

/// Why an animation file could not be read.
#[derive(Debug)]
pub enum AnimationError<'a> {
    /// A flip names an animation that is not in the name list.
    UnknownReference(&'a str),
    /// The file has no header for the name at this position of the list.
    MissingAnimation(usize),
    /// A frame line lacks a pair of quotation marks around its path.
    MissingQuotes,
}

/// A flipped animation: the position of the animation it mirrors.
pub struct FlipAnimation {
    pub source: usize,
}

impl FlipAnimation {
    pub fn new(source: usize) -> (r: FlipAnimation)
        ensures
            r.source == source,
    {
        FlipAnimation { source }
    }

    pub fn getIndex(&self) -> (r: usize)
        ensures
            r == self.source,
    {
        self.source
    }
}

/// Whether `n` occurs in `l`.
pub open spec fn contains_sub(l: Seq<char>, n: Seq<char>) -> bool {
    exists|i: int| 0 <= i && i + n.len() <= l.len() && #[trigger] l.subrange(i, i + n.len()) == n
}

/// The first position at or after `from` whose line satisfies `p`; the
/// number of lines when there is none.
pub open spec fn first_line(ls: Seq<Seq<char>>, from: int, p: spec_fn(Seq<char>) -> bool) -> int
    decreases ls.len() - from,
{
    if from < 0 || from >= ls.len() {
        ls.len() as int
    } else if p(ls[from]) {
        from
    } else {
        first_line(ls, from + 1, p)
    }
}

/// The first position of `c` in `l`; the length of `l` when it is absent.
pub open spec fn first_char(l: Seq<char>, c: char) -> int
    decreases l.len(),
{
    if l.len() == 0 {
        0
    } else if l[0] == c {
        0
    } else {
        1 + first_char(l.drop_first(), c)
    }
}

/// The last position of `c` in `l`; -1 when it is absent.
pub open spec fn last_char(l: Seq<char>, c: char) -> int
    decreases l.len(),
{
    if l.len() == 0 {
        -1
    } else if l.last() == c {
        l.len() - 1
    } else {
        last_char(l.drop_last(), c)
    }
}

/// What a parsed animation says, over characters.
pub enum AnimSpec {
    Flip(usize),
    Standard(Seq<Seq<char>>, Seq<usize>),
}

/// Why parsing fails, over characters.
pub enum ErrSpec {
    UnknownReference(Seq<char>),
    MissingAnimation(usize),
    MissingQuotes,
}

/// The paths and frame positions of the frame lines `ls`: each line holds a
/// path between its first and its last quotation mark; a path seen before
/// reuses its position. `None` when a line lacks such a pair.
pub open spec fn frames(ls: Seq<Seq<char>>) -> Option<(Seq<Seq<char>>, Seq<usize>)>
    decreases ls.len(),
{
    if ls.len() == 0 {
        Some((Seq::empty(), Seq::empty()))
    } else {
        match frames(ls.drop_last()) {
            None => None,
            Some(acc) => {
                let l = ls.last();
                let b = first_char(l, '"');
                let e = last_char(l, '"');
                if b >= e || e < 0 {
                    None
                } else {
                    let path = l.subrange(b + 1, e);
                    let p = first_line(acc.0, 0, |x: Seq<char>| x == path);
                    if p < acc.0.len() {
                        Some((acc.0, acc.1.push(p as usize)))
                    } else {
                        Some((acc.0.push(path), acc.1.push(acc.0.len() as usize)))
                    }
                }
            },
        }
    }
}

/// The animation named at position `k`: the lines after its header up to
/// the first closing line; a first line with an ampersand names, after it,
/// the animation it mirrors; otherwise every line is a frame.
pub open spec fn parse_one(lines: Seq<Seq<char>>, names: Seq<Seq<char>>, k: int) -> Result<AnimSpec, ErrSpec> {
    let name = names[k];
    let h = first_line(lines, 0, |l: Seq<char>| l.len() > 0 && l.last() == ':' && contains_sub(l, name));
    if h >= lines.len() {
        Err(ErrSpec::MissingAnimation(k as usize))
    } else {
        let e = first_line(lines, h + 1, |l: Seq<char>| l.len() > 0 && l.last() == ';');
        if e <= h + 1 {
            Err(ErrSpec::MissingAnimation(k as usize))
        } else {
            let first = lines[h + 1];
            let a = first_char(first, '&');
            if a < first.len() {
                let rest = first.subrange(a + 1, first.len() as int);
                let p = first_line(names, 0, |n: Seq<char>| n == rest);
                if p < names.len() {
                    Ok(AnimSpec::Flip(p as usize))
                } else {
                    Err(ErrSpec::UnknownReference(rest))
                }
            } else {
                match frames(lines.subrange(h + 1, e)) {
                    Some(f) => Ok(AnimSpec::Standard(f.0, f.1)),
                    None => Err(ErrSpec::MissingQuotes),
                }
            }
        }
    }
}

/// The animations named by the first `upto` names, in order; the first failure.
pub open spec fn parse_all(lines: Seq<Seq<char>>, names: Seq<Seq<char>>, upto: int) -> Result<Seq<AnimSpec>, ErrSpec>
    decreases upto,
{
    if upto <= 0 {
        Ok(Seq::empty())
    } else {
        match parse_all(lines, names, upto - 1) {
            Err(e) => Err(e),
            Ok(v) => match parse_one(lines, names, upto - 1) {
                Err(e) => Err(e),
                Ok(a) => Ok(v.push(a)),
            },
        }
    }
}

pub open spec fn anim_view<'a>(p: ParsedAnimation<'a>) -> AnimSpec {
    match p {
        ParsedAnimation::Flip(i) => AnimSpec::Flip(i),
        ParsedAnimation::Standard(ps, pos) => AnimSpec::Standard(ps@.map_values(|x: &str| x@), pos@),
    }
}

pub open spec fn err_view<'a>(e: AnimationError<'a>) -> ErrSpec {
    match e {
        AnimationError::UnknownReference(s) => ErrSpec::UnknownReference(s@),
        AnimationError::MissingAnimation(k) => ErrSpec::MissingAnimation(k),
        AnimationError::MissingQuotes => ErrSpec::MissingQuotes,
    }
}

proof fn lemma_first_line(ls: Seq<Seq<char>>, from: int, i: int, p: spec_fn(Seq<char>) -> bool)
    requires
        0 <= from <= i <= ls.len(),
        i < ls.len() ==> p(ls[i]),
        forall|j: int| from <= j < i ==> !p(#[trigger] ls[j]),
    ensures
        first_line(ls, from, p) == i,
    decreases i - from,
{
    if from < i {
        lemma_first_line(ls, from + 1, i, p);
    }
}

proof fn lemma_first_char(l: Seq<char>, c: char, i: int)
    requires
        0 <= i <= l.len(),
        i < l.len() ==> l[i] == c,
        forall|j: int| 0 <= j < i ==> l[j] != c,
    ensures
        first_char(l, c) == i,
    decreases i,
{
    if i > 0 {
        lemma_first_char(l.drop_first(), c, i - 1);
    }
}

proof fn lemma_last_char(l: Seq<char>, c: char, i: int)
    requires
        -1 <= i < l.len(),
        i >= 0 ==> l[i] == c,
        forall|j: int| i < j < l.len() ==> l[j] != c,
    ensures
        last_char(l, c) == i,
    decreases l.len(),
{
    if l.len() > 0 && i < l.len() - 1 {
        lemma_last_char(l.drop_last(), c, i);
    }
}

/// Position of the first newline of `s`, or its length when it has none.
pub open spec fn nl_pos(s: Seq<char>) -> int
    decreases s.len(),
{
    if s.len() == 0 {
        0
    } else if s[0] == '\n' {
        0
    } else {
        1 + nl_pos(s.drop_first())
    }
}

/// A line without its carriage return at the end, if any.
pub open spec fn strip_cr(l: Seq<char>) -> Seq<char> {
    if l.len() > 0 && l.last() == '\r' {
        l.drop_last()
    } else {
        l
    }
}

/// The lines of a text: split at each newline, each without a trailing
/// carriage return; a newline at the very end starts no further line.
pub open spec fn split_lines(s: Seq<char>) -> Seq<Seq<char>>
    decreases s.len(),
{
    if s.len() == 0 {
        Seq::empty()
    } else {
        let i = nl_pos(s);
        if i >= s.len() {
            seq![strip_cr(s)]
        } else {
            if 0 <= i < s.len() {
                seq![strip_cr(s.subrange(0, i))] + split_lines(s.subrange(i + 1, s.len() as int))
            } else {
                Seq::empty()
            }
        }
    }
}

proof fn lemma_nl_pos(s: Seq<char>, k: int)
    requires
        0 <= k <= s.len(),
        k < s.len() ==> s[k] == '\n',
        forall|j: int| 0 <= j < k ==> s[j] != '\n',
    ensures
        nl_pos(s) == k,
    decreases s.len(),
{
    if s.len() > 0 && k > 0 {
        lemma_nl_pos(s.drop_first(), k - 1);
    }
}

/// The characters of a string.
pub fn chars_of(s: &str) -> (r: Vec<char>)
    ensures
        r@ == s@,
{
    let n = s.unicode_len();
    let mut r: Vec<char> = Vec::new();
    let mut i: usize = 0;
    while i < n
        invariant
            n == s@.len(),
            i <= n,
            r@ == s@.subrange(0, i as int),
        decreases n - i,
    {
        r.push(s.get_char(i));
        proof {
            assert(s@.subrange(0, i as int + 1) =~= s@.subrange(0, i as int).push(s@[i as int]));
        }
        i = i + 1;
    }
    proof {
        assert(s@.subrange(0, n as int) =~= s@);
    }
    r
}

/// The end of a line from `start` to `end` once a carriage return at its end is dropped.
fn line_end(s: &Vec<char>, start: usize, end: usize) -> (r: usize)
    requires
        start <= end <= s@.len(),
    ensures
        start <= r <= end,
        s@.subrange(start as int, r as int) == strip_cr(s@.subrange(start as int, end as int)),
{
    if end > start && s[end - 1] == '\r' {
        proof {
            assert(s@.subrange(start as int, end - 1) =~= s@.subrange(start as int, end as int).drop_last());
        }
        end - 1
    } else {
        end
    }
}

/// The lines of `s`, as `split_lines` says, each given by where it starts and ends in `s`.
pub fn lines_of(s: &Vec<char>) -> (r: Vec<(usize, usize)>)
    ensures
        r@.len() == split_lines(s@).len(),
        forall|i: int| 0 <= i < r@.len() ==> (#[trigger] r@[i]).0 <= r@[i].1 <= s@.len()
            && s@.subrange(r@[i].0 as int, r@[i].1 as int) == split_lines(s@)[i],
{
    let mut r: Vec<(usize, usize)> = Vec::new();
    let mut start: usize = 0;
    let mut i: usize = 0;
    let ghost done: Seq<Seq<char>> = Seq::empty();
    proof {
        assert(s@.subrange(0, s@.len() as int) =~= s@);
        assert(done + split_lines(s@) =~= split_lines(s@));
    }
    while i < s.len()
        invariant
            start <= i <= s@.len(),
            forall|j: int| start <= j < i ==> s@[j] != '\n',
            r@.len() == done.len(),
            forall|j: int| 0 <= j < r@.len() ==> (#[trigger] r@[j]).0 <= r@[j].1 <= s@.len()
                && s@.subrange(r@[j].0 as int, r@[j].1 as int) == done[j],
            split_lines(s@) == done + split_lines(s@.subrange(start as int, s@.len() as int)),
        decreases s@.len() - i,
    {
        if s[i] == '\n' {
            let ghost t = s@.subrange(start as int, s@.len() as int);
            proof {
                lemma_nl_pos(t, i - start);
                assert(t.subrange(0, i - start) =~= s@.subrange(start as int, i as int));
                assert(t.subrange(i - start + 1, t.len() as int) =~= s@.subrange(i + 1, s@.len() as int));
            }
            let end = line_end(s, start, i);
            proof {
                done = done.push(s@.subrange(start as int, end as int));
            }
            r.push((start, end));
            start = i + 1;
            proof {
                assert(split_lines(s@) =~= done + split_lines(s@.subrange(start as int, s@.len() as int)));
            }
        }
        i = i + 1;
    }
    let ghost t = s@.subrange(start as int, s@.len() as int);
    if start < s.len() {
        proof {
            lemma_nl_pos(t, t.len() as int);
        }
        let end = line_end(s, start, s.len());
        proof {
            done = done.push(s@.subrange(start as int, end as int));
        }
        r.push((start, end));
        proof {
            assert(split_lines(s@) =~= done);
        }
    } else {
        proof {
            assert(t.len() == 0);
            assert(split_lines(s@) =~= done);
        }
    }
    r
}

/// The spans of `spans` cut `lines` out of `chars`.
pub open spec fn spans_ok(chars: Seq<char>, spans: Seq<(usize, usize)>, lines: Seq<Seq<char>>) -> bool {
    &&& spans.len() == lines.len()
    &&& forall|i: int| 0 <= i < spans.len() ==> (#[trigger] spans[i]).0 <= spans[i].1 <= chars.len()
        && chars.subrange(spans[i].0 as int, spans[i].1 as int) == lines[i]
}

/// Whether `chars[a..b]` equals `chars[c..d]`.
fn same_span(chars: &Vec<char>, a: usize, b: usize, c: usize, d: usize) -> (r: bool)
    requires
        a <= b <= chars@.len(),
        c <= d <= chars@.len(),
    ensures
        r == (chars@.subrange(a as int, b as int) == chars@.subrange(c as int, d as int)),
{
    if b - a != d - c {
        proof {
            assert(chars@.subrange(a as int, b as int).len() != chars@.subrange(c as int, d as int).len());
        }
        return false;
    }
    let ghost l1 = chars@.subrange(a as int, b as int);
    let ghost l2 = chars@.subrange(c as int, d as int);
    let mut j: usize = 0;
    while j < b - a
        invariant
            a <= b <= chars@.len(),
            c <= d <= chars@.len(),
            b - a == d - c,
            j <= b - a,
            l1 == chars@.subrange(a as int, b as int),
            l2 == chars@.subrange(c as int, d as int),
            forall|q: int| 0 <= q < j ==> l1[q] == l2[q],
        decreases b - a - j,
    {
        if chars[a + j] != chars[c + j] {
            proof {
                assert(chars@.subrange(a as int, b as int)[j as int] != chars@.subrange(c as int, d as int)[j as int]);
            }
            return false;
        }
        j = j + 1;
    }
    proof {
        assert(chars@.subrange(a as int, b as int) =~= chars@.subrange(c as int, d as int));
    }
    true
}

/// Whether `chars[a..b]` equals `x`.
fn same_as(chars: &Vec<char>, a: usize, b: usize, x: &Vec<char>) -> (r: bool)
    requires
        a <= b <= chars@.len(),
    ensures
        r == (chars@.subrange(a as int, b as int) == x@),
{
    if b - a != x.len() {
        proof {
            assert(chars@.subrange(a as int, b as int).len() != x@.len());
        }
        return false;
    }
    let ghost l = chars@.subrange(a as int, b as int);
    let mut j: usize = 0;
    while j < x.len()
        invariant
            a <= b <= chars@.len(),
            b - a == x@.len(),
            j <= x@.len(),
            l == chars@.subrange(a as int, b as int),
            forall|q: int| 0 <= q < j ==> l[q] == x@[q],
        decreases x@.len() - j,
    {
        if chars[a + j] != x[j] {
            proof {
                assert(chars@.subrange(a as int, b as int)[j as int] != x@[j as int]);
            }
            return false;
        }
        j = j + 1;
    }
    proof {
        assert(chars@.subrange(a as int, b as int) =~= x@);
    }
    true
}

/// Whether `name` occurs in `chars[a..b]`.
fn contains_at(chars: &Vec<char>, a: usize, b: usize, name: &Vec<char>) -> (r: bool)
    requires
        a <= b <= chars@.len(),
    ensures
        r == contains_sub(chars@.subrange(a as int, b as int), name@),
{
    let ghost l = chars@.subrange(a as int, b as int);
    let n = name.len();
    if n > b - a {
        proof {
            if contains_sub(l, name@) {
                let i = choose|i: int| 0 <= i && i + name@.len() <= l.len() && #[trigger] l.subrange(i, i + name@.len()) == name@;
            }
        }
        return false;
    }
    let mut i: usize = 0;
    while i <= b - a - n
        invariant
            a <= b <= chars@.len(),
            n == name@.len(),
            n <= b - a,
            l == chars@.subrange(a as int, b as int),
            i <= b - a - n + 1,
            forall|q: int| 0 <= q < i ==> #[trigger] l.subrange(q, q + n) != name@,
        decreases b - a - n + 1 - i,
    {
        if same_as(chars, a + i, a + i + n, name) {
            proof {
                assert(l.subrange(i as int, i + n) =~= chars@.subrange(a + i, a + i + n));
            }
            return true;
        }
        proof {
            assert(l.subrange(i as int, i + n) =~= chars@.subrange(a + i, a + i + n));
        }
        if i == b - a - n {
            proof {
                if contains_sub(l, name@) {
                    let q = choose|q: int| 0 <= q && q + name@.len() <= l.len() && #[trigger] l.subrange(q, q + name@.len()) == name@;
                    assert(q <= i);
                }
            }
            return false;
        }
        i = i + 1;
    }
    proof {
        if contains_sub(l, name@) {
            let q = choose|q: int| 0 <= q && q + name@.len() <= l.len() && #[trigger] l.subrange(q, q + name@.len()) == name@;
            assert(q < i);
        }
    }
    false
}

/// The first position of `c` in `chars[a..b]`, relative to `a`.
fn find_char(chars: &Vec<char>, a: usize, b: usize, c: char) -> (r: usize)
    requires
        a <= b <= chars@.len(),
    ensures
        r as int == first_char(chars@.subrange(a as int, b as int), c),
        r <= b - a,
{
    let ghost l = chars@.subrange(a as int, b as int);
    let mut i: usize = 0;
    while i < b - a
        invariant
            a <= b <= chars@.len(),
            l == chars@.subrange(a as int, b as int),
            i <= b - a,
            forall|j: int| 0 <= j < i ==> l[j] != c,
        decreases b - a - i,
    {
        if chars[a + i] == c {
            proof {
                lemma_first_char(l, c, i as int);
            }
            return i;
        }
        i = i + 1;
    }
    proof {
        lemma_first_char(l, c, i as int);
    }
    i
}

/// The last position of `c` in `chars[a..b]`, relative to `a`, if any.
fn rfind_char(chars: &Vec<char>, a: usize, b: usize, c: char) -> (r: Option<usize>)
    requires
        a <= b <= chars@.len(),
    ensures
        r is None <==> last_char(chars@.subrange(a as int, b as int), c) == -1,
        r matches Some(i) ==> i as int == last_char(chars@.subrange(a as int, b as int), c) && i < b - a,
{
    let ghost l = chars@.subrange(a as int, b as int);
    let mut i: usize = b - a;
    while i > 0
        invariant
            a <= b <= chars@.len(),
            l == chars@.subrange(a as int, b as int),
            i <= b - a,
            forall|j: int| i <= j < l.len() ==> l[j] != c,
        decreases i,
    {
        if chars[a + i - 1] == c {
            proof {
                lemma_last_char(l, c, i - 1);
            }
            return Some(i - 1);
        }
        i = i - 1;
    }
    proof {
        lemma_last_char(l, c, -1);
    }
    None
}

/// The first line at or after `from` that ends with `end` and, when
/// `name` is given, holds it.
fn find_line(chars: &Vec<char>, spans: &Vec<(usize, usize)>, lines: Ghost<Seq<Seq<char>>>, from: usize, end: char, name: Option<&Vec<char>>) -> (r: usize)
    requires
        spans_ok(chars@, spans@, lines@),
        from <= spans@.len(),
    ensures
        name matches Some(n) ==> r as int == first_line(lines@, from as int, |l: Seq<char>| l.len() > 0 && l.last() == end && contains_sub(l, n@)),
        name is None ==> r as int == first_line(lines@, from as int, |l: Seq<char>| l.len() > 0 && l.last() == end),
        from <= r <= spans@.len(),
{
    let ghost p = match name {
        Some(n) => |l: Seq<char>| l.len() > 0 && l.last() == end && contains_sub(l, n@),
        None => |l: Seq<char>| l.len() > 0 && l.last() == end,
    };
    let mut i: usize = from;
    while i < spans.len()
        invariant
            spans_ok(chars@, spans@, lines@),
            from <= i <= spans@.len(),
            forall|j: int| from <= j < i ==> !p(#[trigger] lines@[j]),
            p == (match name {
                Some(n) => |l: Seq<char>| l.len() > 0 && l.last() == end && contains_sub(l, n@),
                None => |l: Seq<char>| l.len() > 0 && l.last() == end,
            }),
        decreases spans@.len() - i,
    {
        let (a, b) = spans[i];
        let ghost l = lines@[i as int];
        proof {
            assert(chars@.subrange(a as int, b as int) == l);
        }
        let mut hit = b > a && chars[b - 1] == end;
        proof {
            if b > a {
                assert(l.last() == chars@[b - 1]);
            }
        }
        if hit {
            match name {
                Some(n) => {
                    hit = contains_at(chars, a, b, n);
                },
                None => {},
            }
        }
        if hit {
            proof {
                assert(p(l));
                lemma_first_line(lines@, from as int, i as int, p);
            }
            return i;
        }
        proof {
            assert(!p(l));
        }
        i = i + 1;
    }
    proof {
        lemma_first_line(lines@, from as int, i as int, p);
    }
    i
}

/// Once some prefix of the frame lines fails, all of them fail.
proof fn lemma_frames_none(ls: Seq<Seq<char>>, k: int)
    requires
        0 <= k <= ls.len(),
        frames(ls.subrange(0, k)) is None,
    ensures
        frames(ls) is None,
    decreases ls.len() - k,
{
    if k < ls.len() {
        let m = ls.subrange(0, k + 1);
        assert(m.drop_last() =~= ls.subrange(0, k));
        lemma_frames_none(ls, k + 1);
    } else {
        assert(ls.subrange(0, k) =~= ls);
    }
}

/// The position in the name list of the name equal to `chars[a..b]`, or
/// the list's length.
fn find_name(names: &Vec<Vec<char>>, namesv: Ghost<Seq<Seq<char>>>, chars: &Vec<char>, a: usize, b: usize) -> (r: usize)
    requires
        a <= b <= chars@.len(),
        names@.len() == namesv@.len(),
        forall|i: int| 0 <= i < names@.len() ==> (#[trigger] names@[i])@ == namesv@[i],
    ensures
        r as int == first_line(namesv@, 0, |n: Seq<char>| n == chars@.subrange(a as int, b as int)),
        r <= names@.len(),
{
    let ghost x = chars@.subrange(a as int, b as int);
    let ghost p = |n: Seq<char>| n == chars@.subrange(a as int, b as int);
    let mut i: usize = 0;
    while i < names.len()
        invariant
            a <= b <= chars@.len(),
            x == chars@.subrange(a as int, b as int),
            p == (|n: Seq<char>| n == chars@.subrange(a as int, b as int)),
            names@.len() == namesv@.len(),
            forall|q: int| 0 <= q < names@.len() ==> (#[trigger] names@[q])@ == namesv@[q],
            i <= names@.len(),
            forall|j: int| 0 <= j < i ==> !p(#[trigger] namesv@[j]),
        decreases names@.len() - i,
    {
        if same_as(chars, a, b, &names[i]) {
            proof {
                assert(p(namesv@[i as int]));
                lemma_first_line(namesv@, 0, i as int, p);
            }
            return i;
        }
        i = i + 1;
    }
    proof {
        lemma_first_line(namesv@, 0, i as int, p);
    }
    i
}

pub open spec fn views<'a>(ps: Seq<&'a str>) -> Seq<Seq<char>> {
    ps.map_values(|x: &str| x@)
}

/// The frames of lines `from..to`, as `frames` says.
fn frames_of<'a>(file: &'a str, chars: &Vec<char>, spans: &Vec<(usize, usize)>, lines: Ghost<Seq<Seq<char>>>, from: usize, to: usize)
    -> (r: Option<(Vec<&'a str>, Vec<usize>)>)
    requires
        chars@ == file@,
        spans_ok(chars@, spans@, lines@),
        from <= to <= spans@.len(),
    ensures
        r is Some == frames(lines@.subrange(from as int, to as int)) is Some,
        r matches Some(v) ==> views(v.0@) == (frames(lines@.subrange(from as int, to as int))->0).0
            && v.1@ == (frames(lines@.subrange(from as int, to as int))->0).1,
{
    let mut paths: Vec<&'a str> = Vec::new();
    let mut pspans: Vec<(usize, usize)> = Vec::new();
    let mut positions: Vec<usize> = Vec::new();
    let mut i: usize = from;
    proof {
        assert(lines@.subrange(from as int, from as int) =~= Seq::<Seq<char>>::empty());
        assert(views(paths@) =~= Seq::<Seq<char>>::empty());
    }
    while i < to
        invariant
            chars@ == file@,
            spans_ok(chars@, spans@, lines@),
            from <= i <= to <= spans@.len(),
            frames(lines@.subrange(from as int, i as int)) matches Some(f) && views(paths@) == f.0 && positions@ == f.1,
            pspans@.len() == paths@.len(),
            forall|j: int| 0 <= j < pspans@.len() ==> (#[trigger] pspans@[j]).0 <= pspans@[j].1 <= chars@.len()
                && chars@.subrange(pspans@[j].0 as int, pspans@[j].1 as int) == views(paths@)[j],
        decreases to - i,
    {
        let (a, b) = spans[i];
        let ghost l = lines@[i as int];
        let ghost m = lines@.subrange(from as int, i as int + 1);
        proof {
            assert(m.drop_last() =~= lines@.subrange(from as int, i as int));
            assert(m.last() == l);
            assert(chars@.subrange(a as int, b as int) == l);
        }
        let bq = find_char(chars, a, b, '"');
        let eq = rfind_char(chars, a, b, '"');
        let e = match eq {
            Some(e) => e,
            None => {
                proof {
                    lemma_frames_none(lines@.subrange(from as int, to as int), i - from + 1);
                    assert(lines@.subrange(from as int, to as int).subrange(0, i - from + 1) =~= m);
                }
                return None;
            },
        };
        if bq >= e {
            proof {
                assert(lines@.subrange(from as int, to as int).subrange(0, i - from + 1) =~= m);
                lemma_frames_none(lines@.subrange(from as int, to as int), i - from + 1);
            }
            return None;
        }
        let start = a + bq + 1;
        let end = a + e;
        proof {
            assert(chars@.subrange(start as int, end as int) =~= l.subrange(bq + 1, e as int));
        }
        let ghost path = l.subrange(bq + 1, e as int);
        let ghost acc = views(paths@);
        let ghost p = |x: Seq<char>| x == path;
        let mut k: usize = 0;
        let mut found = false;
        while !found && k < pspans.len()
            invariant
                chars@ == file@,
                start <= end <= chars@.len(),
                chars@.subrange(start as int, end as int) == path,
                p == (|x: Seq<char>| x == path),
                acc == views(paths@),
                pspans@.len() == paths@.len(),
                forall|j: int| 0 <= j < pspans@.len() ==> (#[trigger] pspans@[j]).0 <= pspans@[j].1 <= chars@.len()
                    && chars@.subrange(pspans@[j].0 as int, pspans@[j].1 as int) == acc[j],
                k <= pspans@.len(),
                found ==> k < pspans@.len() && p(acc[k as int]),
                forall|j: int| 0 <= j < k ==> !p(#[trigger] acc[j]),
            decreases pspans@.len() - k, if found { 0int } else { 1int },
        {
            let (c, d) = pspans[k];
            if same_span(chars, c, d, start, end) {
                found = true;
            } else {
                k = k + 1;
            }
        }
        proof {
            assert(acc.len() == paths@.len());
            lemma_first_line(acc, 0, k as int, p);
        }
        if k < pspans.len() {
            positions.push(k);
        } else {
            let pos = paths.len();
            paths.push(file.substring_char(start, end));
            pspans.push((start, end));
            positions.push(pos);
            proof {
                assert(views(paths@) =~= acc.push(path));
            }
        }
        i = i + 1;
    }
    Some((paths, positions))
}

/// Once the animations up to some name fail, all of them fail the same way.
proof fn lemma_parse_all_err(lines: Seq<Seq<char>>, names: Seq<Seq<char>>, m: int, n: int)
    requires
        0 <= m <= n,
        parse_all(lines, names, m) is Err,
    ensures
        parse_all(lines, names, n) == parse_all(lines, names, m),
    decreases n - m,
{
    if m < n {
        lemma_parse_all_err(lines, names, m, n - 1);
    }
}

pub open spec fn names_view(names: Seq<&str>) -> Seq<Seq<char>> {
    names.map_values(|n: &str| n@)
}

/// Reads the animations named in `names` from an animation file, in the
/// order of the names. Each animation starts after the first header line
/// holding its name (a line ending with a colon) and runs up to the next
/// line ending with a semicolon. Its first line either names, after an
/// ampersand, the animation it mirrors (which must be in `names`), or it
/// and every further line holds a frame's image path between quotation marks.
pub fn parse<'a>(file: &'a str, names: &[&str]) -> (r: Result<Vec<ParsedAnimation<'a>>, AnimationError<'a>>)
    ensures
        match parse_all(split_lines(file@), names_view(names@), names@.len() as int) {
            Ok(sv) => r matches Ok(v) && v@.len() == sv.len() && forall|i: int| 0 <= i < sv.len() ==> #[trigger] anim_view(v@[i]) == sv[i],
            Err(se) => r matches Err(e) && err_view(e) == se,
        },
{
    let chars = chars_of(file);
    let spans = lines_of(&chars);
    let ghost lines = split_lines(file@);
    let ghost nv = names_view(names@);
    proof {
        assert(spans_ok(chars@, spans@, lines));
    }
    let mut namev: Vec<Vec<char>> = Vec::new();
    let mut q: usize = 0;
    while q < names.len()
        invariant
            q <= names@.len(),
            nv == names_view(names@),
            namev@.len() == q,
            forall|i: int| 0 <= i < q ==> (#[trigger] namev@[i])@ == nv[i],
        decreases names@.len() - q,
    {
        namev.push(chars_of(names[q]));
        q = q + 1;
    }
    let mut out: Vec<ParsedAnimation<'a>> = Vec::new();
    let mut k: usize = 0;
    while k < names.len()
        invariant
            chars@ == file@,
            lines == split_lines(file@),
            spans_ok(chars@, spans@, lines),
            nv == names_view(names@),
            namev@.len() == names@.len(),
            forall|i: int| 0 <= i < namev@.len() ==> (#[trigger] namev@[i])@ == nv[i],
            k <= names@.len(),
            parse_all(lines, nv, k as int) matches Ok(sv) && out@.len() == sv.len()
                && forall|i: int| 0 <= i < sv.len() ==> #[trigger] anim_view(out@[i]) == sv[i],
        decreases names@.len() - k,
    {
        let ghost prev = parse_all(lines, nv, k as int)->Ok_0;
        let h = find_line(&chars, &spans, Ghost(lines), 0, ':', Some(&namev[k]));
        if h >= spans.len() {
            proof {
                assert(parse_all(lines, nv, k as int + 1) == Err::<Seq<AnimSpec>, ErrSpec>(ErrSpec::MissingAnimation(k)));
                lemma_parse_all_err(lines, nv, k as int + 1, names@.len() as int);
            }
            return Err(AnimationError::MissingAnimation(k));
        }
        let e = find_line(&chars, &spans, Ghost(lines), h + 1, ';', None);
        if e <= h + 1 {
            proof {
                assert(parse_all(lines, nv, k as int + 1) == Err::<Seq<AnimSpec>, ErrSpec>(ErrSpec::MissingAnimation(k)));
                lemma_parse_all_err(lines, nv, k as int + 1, names@.len() as int);
            }
            return Err(AnimationError::MissingAnimation(k));
        }
        let (a, b) = spans[h + 1];
        let ghost first = lines[h + 1];
        let amp = find_char(&chars, a, b, '&');
        if amp < b - a {
            proof {
                assert(chars@.subrange(a + amp + 1, b as int) =~= first.subrange(amp + 1, first.len() as int));
            }
            let p = find_name(&namev, Ghost(nv), &chars, a + amp + 1, b);
            proof {
                let rest = first.subrange(amp + 1, first.len() as int);
                assert(chars@.subrange(a as int, b as int) == first);
                assert((|n: Seq<char>| n == rest) =~= (|n: Seq<char>| n == chars@.subrange(a + amp + 1, b as int)));
            }
            if p < names.len() {
                out.push(ParsedAnimation::Flip(p));
                proof {
                    assert(parse_one(lines, nv, k as int) == Ok::<AnimSpec, ErrSpec>(AnimSpec::Flip(p)));
                    assert(parse_all(lines, nv, k as int + 1) == Ok::<Seq<AnimSpec>, ErrSpec>(prev.push(AnimSpec::Flip(p))));
                }
            } else {
                let rest = file.substring_char(a + amp + 1, b);
                proof {
                    assert(parse_all(lines, nv, k as int + 1) == Err::<Seq<AnimSpec>, ErrSpec>(ErrSpec::UnknownReference(rest@)));
                    lemma_parse_all_err(lines, nv, k as int + 1, names@.len() as int);
                }
                return Err(AnimationError::UnknownReference(rest));
            }
        } else {
            match frames_of(file, &chars, &spans, Ghost(lines), h + 1, e) {
                Some((ps, pos)) => {
                    let ghost f = frames(lines.subrange(h + 1, e as int))->0;
                    out.push(ParsedAnimation::Standard(ps, pos));
                    proof {
                        assert(parse_one(lines, nv, k as int) == Ok::<AnimSpec, ErrSpec>(AnimSpec::Standard(f.0, f.1)));
                        assert(parse_all(lines, nv, k as int + 1) == Ok::<Seq<AnimSpec>, ErrSpec>(prev.push(AnimSpec::Standard(f.0, f.1))));
                    }
                },
                None => {
                    proof {
                        assert(parse_all(lines, nv, k as int + 1) == Err::<Seq<AnimSpec>, ErrSpec>(ErrSpec::MissingQuotes));
                        lemma_parse_all_err(lines, nv, k as int + 1, names@.len() as int);
                    }
                    return Err(AnimationError::MissingQuotes);
                },
            }
        }
        k = k + 1;
    }
    Ok(out)
}

} // verus!
