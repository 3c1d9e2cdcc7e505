//! Strings as sequences of characters: slicing, trimming and splitting into lines.
use vstd::prelude::*;
use vstd::string::*;

verus! {

/// `String::push` appends the character to the string.
pub assume_specification[ String::push ](s: &mut String, c: char)
    ensures
        final(s)@ == old(s)@.push(c),
;

/// The characters of a string.
pub fn chars_of(s: &str) -> (r: Vec<char>)
    ensures
        r@ == s@,
{
    let n: usize = s.unicode_len();
    let mut out: Vec<char> = Vec::new();
    let mut it = s.chars();
    let mut i: usize = 0;
    assert(out@ + vstd::std_specs::iter::IteratorSpec::remaining(&it) =~= s@);
    while i < n
        invariant
            i <= n,
            n == s@.len(),
            out@.len() == i,
            out@ + vstd::std_specs::iter::IteratorSpec::remaining(&it) == s@,
        decreases n - i,
    {
        let ghost rest = vstd::std_specs::iter::IteratorSpec::remaining(&it);
        let ghost before = out@;
        assert(rest.len() == n - i);
        if let Some(c) = it.next() {
            out.push(c);
            assert(rest =~= seq![c] + rest.drop_first());
            assert(out@ + rest.drop_first() =~= before + rest);
        }
        i += 1;
    }
    assert(out@ =~= s@);
    out
}

/// The string of the characters from `from` up to `to`.
pub fn text_of(v: &Vec<char>, from: usize, to: usize) -> (r: String)
    requires
        from <= to <= v@.len(),
    ensures
        r@ == v@.subrange(from as int, to as int),
{
    let mut out = String::new();
    let mut i: usize = from;
    assert(out@ =~= v@.subrange(from as int, from as int));
    while i < to
        invariant
            from <= i <= to <= v@.len(),
            out@ == v@.subrange(from as int, i as int),
        decreases to - i,
    {
        out.push(v[i]);
        assert(out@ =~= v@.subrange(from as int, i as int + 1));
        i += 1;
    }
    out
}

pub fn string_of(v: &Vec<char>) -> (r: String)
    ensures
        r@ == v@,
{
    let r = text_of(v, 0, v.len());
    assert(v@.subrange(0, v@.len() as int) =~= v@);
    r
}

/// Appends the characters from `from` up to `to`.
pub fn append_chars(out: &mut Vec<char>, v: &Vec<char>, from: usize, to: usize)
    requires
        from <= to <= v@.len(),
    ensures
        final(out)@ == old(out)@ + v@.subrange(from as int, to as int),
{
    let ghost start = out@;
    let mut i: usize = from;
    assert(out@ =~= start + v@.subrange(from as int, from as int));
    while i < to
        invariant
            from <= i <= to <= v@.len(),
            out@ == start + v@.subrange(from as int, i as int),
        decreases to - i,
    {
        out.push(v[i]);
        assert(out@ =~= start + v@.subrange(from as int, i as int + 1));
        i += 1;
    }
}

pub fn append_text(out: &mut Vec<char>, s: &str)
    ensures
        final(out)@ == old(out)@ + s@,
{
    let v = chars_of(s);
    append_chars(out, &v, 0, v.len());
    assert(v@.subrange(0, v@.len() as int) =~= v@);
}

pub fn slice_chars(v: &Vec<char>, from: usize, to: usize) -> (r: Vec<char>)
    requires
        from <= to <= v@.len(),
    ensures
        r@ == v@.subrange(from as int, to as int),
{
    let mut out: Vec<char> = Vec::new();
    append_chars(&mut out, v, from, to);
    assert(out@ =~= v@.subrange(from as int, to as int));
    out
}

/// Unicode white space.
pub open spec fn is_white(c: char) -> bool {
    let n = c as u32;
    ||| 0x9 <= n <= 0xd
    ||| n == 0x20
    ||| n == 0x85
    ||| n == 0xa0
    ||| n == 0x1680
    ||| 0x2000 <= n <= 0x200a
    ||| n == 0x2028
    ||| n == 0x2029
    ||| n == 0x202f
    ||| n == 0x205f
    ||| n == 0x3000
}

pub fn is_white_char(c: char) -> (r: bool)
    ensures
        r == is_white(c),
{
    let n: u32 = c as u32;
    (0x9 <= n && n <= 0xd) || n == 0x20 || n == 0x85 || n == 0xa0 || n == 0x1680 || (0x2000 <= n && n <= 0x200a) || n
        == 0x2028 || n == 0x2029 || n == 0x202f || n == 0x205f || n == 0x3000
}

/// Letters and digits of ASCII.
pub open spec fn is_ascii_alnum(c: char) -> bool {
    ||| '0' <= c <= '9'
    ||| 'a' <= c <= 'z'
    ||| 'A' <= c <= 'Z'
}

pub fn is_ascii_alnum_char(c: char) -> (r: bool)
    ensures
        r == is_ascii_alnum(c),
{
    ('0' <= c && c <= '9') || ('a' <= c && c <= 'z') || ('A' <= c && c <= 'Z')
}

/// A character that a name can hold.
pub open spec fn is_name_char(c: char) -> bool {
    is_ascii_alnum(c) || c == '_'
}

pub fn is_name(c: char) -> (r: bool)
    ensures
        r == is_name_char(c),
{
    is_ascii_alnum_char(c) || c == '_'
}

/// The first position from `i` on that holds no white space.
pub open spec fn first_solid(s: Seq<char>, i: nat) -> nat
    decreases s.len() - i,
{
    if i >= s.len() {
        s.len()
    } else if is_white(s[i as int]) {
        first_solid(s, i + 1)
    } else {
        i
    }
}

/// The end of what precedes the white space before position `i`.
pub open spec fn last_solid(s: Seq<char>, i: nat) -> nat
    decreases i,
{
    if i == 0 || i > s.len() {
        0
    } else if is_white(s[i - 1]) {
        last_solid(s, (i - 1) as nat)
    } else {
        i
    }
}

pub open spec fn trim_start(s: Seq<char>) -> Seq<char> {
    s.skip(first_solid(s, 0) as int)
}

pub open spec fn trim_end(s: Seq<char>) -> Seq<char> {
    s.take(last_solid(s, s.len()) as int)
}

pub open spec fn trim(s: Seq<char>) -> Seq<char> {
    trim_end(trim_start(s))
}

proof fn lemma_first_solid(s: Seq<char>, i: nat)
    requires
        i <= s.len(),
    ensures
        i <= first_solid(s, i) <= s.len(),
    decreases s.len() - i,
{
    if i < s.len() && is_white(s[i as int]) {
        lemma_first_solid(s, i + 1);
    }
}

proof fn lemma_last_solid(s: Seq<char>, i: nat)
    requires
        i <= s.len(),
    ensures
        last_solid(s, i) <= i,
    decreases i,
{
    if i > 0 && is_white(s[i - 1]) {
        lemma_last_solid(s, (i - 1) as nat);
    }
}

pub fn skip_white(v: &Vec<char>) -> (r: usize)
    ensures
        r == first_solid(v@, 0),
        r <= v@.len(),
{
    let mut i: usize = 0;
    while i < v.len()
        invariant
            i <= v@.len(),
            first_solid(v@, i as nat) == first_solid(v@, 0),
        decreases v@.len() - i,
    {
        if !is_white_char(v[i]) {
            return i;
        }
        i += 1;
    }
    i
}

pub fn trimmed_start(v: &Vec<char>) -> (r: Vec<char>)
    ensures
        r@ == trim_start(v@),
{
    let i: usize = skip_white(v);
    let r = slice_chars(v, i, v.len());
    assert(r@ =~= trim_start(v@));
    r
}

pub fn trimmed_end(v: &Vec<char>) -> (r: Vec<char>)
    ensures
        r@ == trim_end(v@),
{
    let mut i: usize = v.len();
    while i > 0
        invariant
            i <= v@.len(),
            last_solid(v@, i as nat) == last_solid(v@, v@.len()),
        decreases i,
    {
        if !is_white_char(v[i - 1]) {
            let r = slice_chars(v, 0, i);
            assert(r@ =~= trim_end(v@));
            return r;
        }
        i -= 1;
    }
    let r: Vec<char> = Vec::new();
    assert(r@ =~= trim_end(v@));
    r
}

pub fn trimmed(v: &Vec<char>) -> (r: Vec<char>)
    ensures
        r@ == trim(v@),
{
    trimmed_end(&trimmed_start(v))
}

/// Trimming takes away only white space: what is left neither starts nor ends with any.
pub proof fn trimmed_has_no_white_ends(s: Seq<char>)
    ensures
        trim(s).len() > 0 ==> !is_white(trim(s)[0]) && !is_white(trim(s).last()),
{
    let t = trim_start(s);
    lemma_first_solid(s, 0);
    lemma_solid_at(s, 0);
    lemma_last_solid(t, t.len());
    lemma_solid_before(t, t.len());
}

proof fn lemma_solid_at(s: Seq<char>, i: nat)
    requires
        i <= s.len(),
    ensures
        first_solid(s, i) < s.len() ==> !is_white(s[first_solid(s, i) as int]),
    decreases s.len() - i,
{
    if i < s.len() && is_white(s[i as int]) {
        lemma_solid_at(s, i + 1);
    }
}

proof fn lemma_solid_before(s: Seq<char>, i: nat)
    requires
        i <= s.len(),
    ensures
        last_solid(s, i) > 0 ==> !is_white(s[last_solid(s, i) - 1]),
    decreases i,
{
    if i > 0 && is_white(s[i - 1]) {
        lemma_solid_before(s, (i - 1) as nat);
    }
}

pub open spec fn starts_with(s: Seq<char>, p: Seq<char>) -> bool {
    p.len() <= s.len() && s.take(p.len() as int) == p
}

pub open spec fn ends_with(s: Seq<char>, p: Seq<char>) -> bool {
    p.len() <= s.len() && s.skip(s.len() - p.len()) == p
}

/// Whether the text at `from` starts with `p`.
pub fn starts_at(v: &Vec<char>, from: usize, p: &str) -> (r: bool)
    requires
        from <= v@.len(),
    ensures
        r == starts_with(v@.skip(from as int), p@),
{
    let pc = chars_of(p);
    let n: usize = v.len();
    if n - from < pc.len() {
        return false;
    }
    let mut i: usize = 0;
    while i < pc.len()
        invariant
            i <= pc@.len(),
            pc@ == p@,
            n == v@.len(),
            from + pc@.len() <= n,
            forall|k: int| 0 <= k < i ==> v@[from + k] == #[trigger] pc@[k],
        decreases pc@.len() - i,
    {
        if v[from + i] != pc[i] {
            assert(v@.skip(from as int).take(p@.len() as int)[i as int] != p@[i as int]);
            return false;
        }
        i += 1;
    }
    assert(v@.skip(from as int).take(p@.len() as int) =~= p@);
    true
}

pub fn has_prefix(v: &Vec<char>, p: &str) -> (r: bool)
    ensures
        r == starts_with(v@, p@),
{
    assert(v@.skip(0) =~= v@);
    starts_at(v, 0, p)
}

/// What follows the prefix, if the text has it.
pub open spec fn strip_prefix(s: Seq<char>, p: Seq<char>) -> Option<Seq<char>> {
    if starts_with(s, p) {
        Some(s.skip(p.len() as int))
    } else {
        None
    }
}

pub open spec fn opt_chars(v: Option<Vec<char>>) -> Option<Seq<char>> {
    match v {
        Some(v) => Some(v@),
        None => None,
    }
}

pub fn stripped_prefix(v: &Vec<char>, p: &str) -> (r: Option<Vec<char>>)
    ensures
        opt_chars(r) == strip_prefix(v@, p@),
{
    if has_prefix(v, p) {
        let n: usize = p.unicode_len();
        let r = slice_chars(v, n, v.len());
        assert(r@ =~= v@.skip(n as int));
        Some(r)
    } else {
        None
    }
}

/// The first position from `i` on that holds `c`, or the end.
pub open spec fn find_char(s: Seq<char>, c: char, i: nat) -> nat
    decreases s.len() - i,
{
    if i >= s.len() {
        s.len()
    } else if s[i as int] == c {
        i
    } else {
        find_char(s, c, i + 1)
    }
}

pub proof fn lemma_find_char(s: Seq<char>, c: char, i: nat)
    requires
        i <= s.len(),
    ensures
        i <= find_char(s, c, i) <= s.len(),
        find_char(s, c, i) < s.len() ==> s[find_char(s, c, i) as int] == c,
        forall|k: int| i <= k < find_char(s, c, i) ==> s[k] != c,
    decreases s.len() - i,
{
    if i < s.len() && s[i as int] != c {
        lemma_find_char(s, c, i + 1);
    }
}

pub fn position_of_char(v: &Vec<char>, c: char, from: usize) -> (r: usize)
    requires
        from <= v@.len(),
    ensures
        r == find_char(v@, c, from as nat),
        from <= r <= v@.len(),
{
    let mut i: usize = from;
    while i < v.len()
        invariant
            from <= i <= v@.len(),
            find_char(v@, c, i as nat) == find_char(v@, c, from as nat),
        decreases v@.len() - i,
    {
        if v[i] == c {
            return i;
        }
        i += 1;
    }
    i
}

/// The text of the line from `i` up to the line feed at `e`: a carriage return before the
/// line feed belongs to the line ending.
pub open spec fn line_text(s: Seq<char>, i: int, e: int) -> Seq<char> {
    if e < s.len() && e > i && s[e - 1] == '\r' {
        s.subrange(i, e - 1)
    } else {
        s.subrange(i, e)
    }
}

/// The lines from position `i` on.
pub open spec fn lines_from(acc: Seq<Seq<char>>, s: Seq<char>, i: nat) -> Seq<Seq<char>>
    decreases s.len() - i,
{
    if i >= s.len() {
        acc
    } else {
        let e = find_char(s, '\n', i);
        proof {
            lemma_find_char(s, '\n', i);
        }
        lines_from(
            acc.push(line_text(s, i as int, e as int)),
            s,
            if e < s.len() {
                e + 1
            } else {
                s.len()
            },
        )
    }
}

/// The lines of a text, without their line endings; a final line ending is optional.
pub open spec fn lines(s: Seq<char>) -> Seq<Seq<char>> {
    lines_from(Seq::empty(), s, 0)
}

pub fn lines_of(v: &Vec<char>) -> (r: Vec<Vec<char>>)
    ensures
        r.deep_view() == lines(v@),
{
    let mut out: Vec<Vec<char>> = Vec::new();
    assert(out.deep_view() =~= Seq::<Seq<char>>::empty());
    let mut i: usize = 0;
    let mut done = v.len() == 0;
    while !done
        invariant
            i <= v@.len(),
            !done ==> i < v@.len(),
            lines_from(out.deep_view(), v@, if done { v@.len() } else { i as nat }) == lines(v@),
        decreases v@.len() - i, (if done { 0nat } else { 1nat }),
    {
        let e: usize = position_of_char(v, '\n', i);
        let line = if e < v.len() && e > i && v[e - 1] == '\r' {
            slice_chars(v, i, e - 1)
        } else {
            slice_chars(v, i, e)
        };
        let ghost before = out.deep_view();
        let ghost lv = line@;
        assert(lv == line_text(v@, i as int, e as int));
        out.push(line);
        assert(out.deep_view() =~= before.push(lv)) by {
            assert(line.deep_view() =~= line@);
        }
        if e < v.len() && e + 1 < v.len() {
            i = e + 1;
        } else {
            done = true;
        }
    }
    out
}

/// The position after the last `c` before `i`, or zero.
pub open spec fn after_last(s: Seq<char>, c: char, i: nat) -> nat
    decreases i,
{
    if i == 0 || i > s.len() {
        0
    } else if s[i - 1] == c {
        i
    } else {
        after_last(s, c, (i - 1) as nat)
    }
}

pub proof fn lemma_after_last(s: Seq<char>, c: char, i: nat)
    requires
        i <= s.len(),
    ensures
        after_last(s, c, i) <= i,
        after_last(s, c, i) > 0 ==> s[after_last(s, c, i) - 1] == c,
        forall|k: int| after_last(s, c, i) <= k < i ==> s[k] != c,
    decreases i,
{
    if i > 0 && s[i - 1] != c {
        lemma_after_last(s, c, (i - 1) as nat);
    }
}

/// The number of line feeds between two positions.
pub open spec fn feeds(s: Seq<char>, from: int, to: int) -> nat
    decreases to - from,
{
    if to <= from {
        0
    } else {
        feeds(s, from, to - 1) + (if s[to - 1] == '\n' {
            1nat
        } else {
            0nat
        })
    }
}

} // verus!
