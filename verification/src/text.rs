use vstd::prelude::*;

verus! {

broadcast use vstd::string::group_string_axioms;

/// `String::push`: trusted to leave the string holding its former characters
/// followed by `c`, as the standard library documents.
#[verifier::external_body]
pub(crate) fn push_char(s: &mut String, c: char)
    ensures
        final(s)@ == old(s)@.push(c),
{
    s.push(c);
}

/// The characters of a string slice, in order.
pub fn chars_of(s: &str) -> (v: Vec<char>)
    ensures
        v@ == s@,
{
    let mut v: Vec<char> = Vec::new();
    for c in it: s.chars()
        invariant
            v@ == it.seq().take(it.index() as int),
            it.seq() == s@,
    {
        v.push(c);
    }
    v
}

/// A `String` holding exactly the given characters.
pub fn string_of(cs: &[char]) -> (s: String)
    ensures
        s@ == cs@,
{
    let mut s = String::new();
    let mut i: usize = 0;
    while i < cs.len()
        invariant
            i <= cs.len(),
            s@ == cs@.take(i as int),
        decreases cs.len() - i,
    {
        push_char(&mut s, cs[i]);
        i += 1;
        assert(cs@.take(i as int) == cs@.take(i - 1).push(cs@[i - 1]));
    }
    assert(cs@.take(cs.len() as int) == cs@);
    s
}

/// Whether a character sequence equals the characters of a string slice.
pub fn eq_str(a: &[char], b: &str) -> (r: bool)
    ensures
        r == (a@ == b@),
{
    let bc = chars_of(b);
    if a.len() != bc.len() {
        return false;
    }
    let mut i: usize = 0;
    while i < a.len()
        invariant
            i <= a.len(),
            a.len() == bc.len(),
            bc@ == b@,
            forall|j: int| 0 <= j < i ==> a@[j] == bc@[j],
        decreases a.len() - i,
    {
        if a[i] != bc[i] {
            return false;
        }
        i += 1;
    }
    assert(a@ =~= bc@);
    true
}

} // verus!

verus! {

/// Whether `c` is a Unicode `White_Space` character (what `char::is_whitespace` tests).
pub open spec fn is_ws(c: char) -> bool {
    let u = c as u32;
    ||| 9 <= u <= 13
    ||| u == 32
    ||| u == 0x85
    ||| u == 0xa0
    ||| u == 0x1680
    ||| 0x2000 <= u <= 0x200a
    ||| u == 0x2028
    ||| u == 0x2029
    ||| u == 0x202f
    ||| u == 0x205f
    ||| u == 0x3000
}

/// `s` without its leading whitespace.
pub open spec fn trim_start(s: Seq<char>) -> Seq<char>
    decreases s.len(),
{
    if s.len() > 0 && is_ws(s[0]) {
        trim_start(s.drop_first())
    } else {
        s
    }
}

/// `s` without its trailing whitespace.
pub open spec fn trim_end(s: Seq<char>) -> Seq<char>
    decreases s.len(),
{
    if s.len() > 0 && is_ws(s.last()) {
        trim_end(s.drop_last())
    } else {
        s
    }
}

/// `s` without leading and trailing whitespace (`str::trim`).
pub open spec fn spec_trim(s: Seq<char>) -> Seq<char> {
    trim_end(trim_start(s))
}

/// `s` without any of its leading copies of `c` (`str::trim_start_matches`).
pub open spec fn strip_start_all(s: Seq<char>, c: char) -> Seq<char>
    decreases s.len(),
{
    if s.len() > 0 && s[0] == c {
        strip_start_all(s.drop_first(), c)
    } else {
        s
    }
}

/// `s` without any of its trailing copies of `c` (`str::trim_end_matches`).
pub open spec fn strip_end_all(s: Seq<char>, c: char) -> Seq<char>
    decreases s.len(),
{
    if s.len() > 0 && s.last() == c {
        strip_end_all(s.drop_last(), c)
    } else {
        s
    }
}

/// Whether `c` is whitespace.
pub fn is_ws_char(c: char) -> (r: bool)
    ensures
        r == is_ws(c),
{
    let u = c as u32;
    (9 <= u && u <= 13) || u == 32 || u == 0x85 || u == 0xa0 || u == 0x1680 || (0x2000 <= u
        && u <= 0x200a) || u == 0x2028 || u == 0x2029 || u == 0x202f || u == 0x205f || u
        == 0x3000
}

proof fn lemma_trim_start_skip(s: Seq<char>, i: int)
    requires
        0 <= i <= s.len(),
        forall|j: int| 0 <= j < i ==> is_ws(#[trigger] s[j]),
    ensures
        trim_start(s) == trim_start(s.skip(i)),
    decreases i,
{
    if i > 0 {
        lemma_trim_start_skip(s.drop_first(), i - 1);
        assert(s.drop_first().skip(i - 1) =~= s.skip(i));
    } else {
        assert(s.skip(0) =~= s);
    }
}

proof fn lemma_trim_end_take(s: Seq<char>, j: int)
    requires
        0 <= j <= s.len(),
        forall|k: int| j <= k < s.len() ==> is_ws(#[trigger] s[k]),
    ensures
        trim_end(s) == trim_end(s.take(j)),
    decreases s.len() - j,
{
    if j < s.len() {
        lemma_trim_end_take(s.drop_last(), j);
        assert(s.drop_last().take(j) =~= s.take(j));
    } else {
        assert(s.take(j) =~= s);
    }
}

proof fn lemma_strip_start_skip(s: Seq<char>, c: char, i: int)
    requires
        0 <= i <= s.len(),
        forall|j: int| 0 <= j < i ==> #[trigger] s[j] == c,
    ensures
        strip_start_all(s, c) == strip_start_all(s.skip(i), c),
    decreases i,
{
    if i > 0 {
        lemma_strip_start_skip(s.drop_first(), c, i - 1);
        assert(s.drop_first().skip(i - 1) =~= s.skip(i));
    } else {
        assert(s.skip(0) =~= s);
    }
}

proof fn lemma_strip_end_take(s: Seq<char>, c: char, j: int)
    requires
        0 <= j <= s.len(),
        forall|k: int| j <= k < s.len() ==> #[trigger] s[k] == c,
    ensures
        strip_end_all(s, c) == strip_end_all(s.take(j), c),
    decreases s.len() - j,
{
    if j < s.len() {
        lemma_strip_end_take(s.drop_last(), c, j);
        assert(s.drop_last().take(j) =~= s.take(j));
    } else {
        assert(s.take(j) =~= s);
    }
}

/// The bounds of `spec_trim(s)` inside `s`.
pub fn trim_span(s: &[char]) -> (r: (usize, usize))
    ensures
        r.0 <= r.1 <= s.len(),
        s@.subrange(r.0 as int, r.1 as int) == spec_trim(s@),
{
    let mut a: usize = 0;
    while a < s.len() && is_ws_char(s[a])
        invariant
            a <= s.len(),
            forall|j: int| 0 <= j < a ==> is_ws(#[trigger] s@[j]),
        decreases s.len() - a,
    {
        a += 1;
    }
    proof {
        lemma_trim_start_skip(s@, a as int);
    }
    let ghost t = s@.skip(a as int);
    assert(trim_start(t) == t);
    let mut b: usize = s.len();
    while b > a && is_ws_char(s[b - 1])
        invariant
            a <= b <= s.len(),
            t == s@.skip(a as int),
            forall|k: int| b <= k < s.len() ==> is_ws(#[trigger] s@[k]),
        decreases b,
    {
        b -= 1;
    }
    proof {
        assert forall|k: int| b - a <= k < t.len() implies is_ws(#[trigger] t[k]) by {
            assert(t[k] == s@[k + a]);
        }
        lemma_trim_end_take(t, b - a);
        assert(t.take(b - a) =~= s@.subrange(a as int, b as int));
    }
    (a, b)
}

/// `s` without leading and trailing whitespace.
pub fn trim_chars(s: &[char]) -> (r: &[char])
    ensures
        r@ == spec_trim(s@),
{
    let (a, b) = trim_span(s);
    vstd::slice::slice_subrange(s, a, b)
}

/// `s` without leading copies of `[` and trailing copies of `]`.
pub fn strip_brackets(s: &[char]) -> (r: &[char])
    ensures
        r@ == strip_end_all(strip_start_all(s@, '['), ']'),
{
    let mut a: usize = 0;
    while a < s.len() && s[a] == '['
        invariant
            a <= s.len(),
            forall|j: int| 0 <= j < a ==> #[trigger] s@[j] == '[',
        decreases s.len() - a,
    {
        a += 1;
    }
    proof {
        lemma_strip_start_skip(s@, '[', a as int);
    }
    let ghost t = s@.skip(a as int);
    assert(strip_start_all(t, '[') == t);
    let mut b: usize = s.len();
    while b > a && s[b - 1] == ']'
        invariant
            a <= b <= s.len(),
            t == s@.skip(a as int),
            forall|k: int| b <= k < s.len() ==> #[trigger] s@[k] == ']',
        decreases b,
    {
        b -= 1;
    }
    proof {
        assert forall|k: int| b - a <= k < t.len() implies #[trigger] t[k] == ']' by {
            assert(t[k] == s@[k + a]);
        }
        lemma_strip_end_take(t, ']', b - a);
        assert(t.take(b - a) =~= s@.subrange(a as int, b as int));
    }
    vstd::slice::slice_subrange(s, a, b)
}

/// The position of the first `c` in `s`.
pub fn find_char(s: &[char], c: char) -> (r: Option<usize>)
    ensures
        match r {
            Some(i) => {
                &&& i < s.len()
                &&& s@[i as int] == c
                &&& forall|j: int| 0 <= j < i ==> s@[j] != c
                &&& s@.index_of_first(c) == Some(i as int)
            },
            None => s@.index_of_first(c) is None,
        },
        r is Some <==> s@.contains(c),
{
    let mut i: usize = 0;
    while i < s.len()
        invariant
            i <= s.len(),
            forall|j: int| 0 <= j < i ==> #[trigger] s@[j] != c,
        decreases s.len() - i,
    {
        if s[i] == c {
            proof {
                s@.index_of_first_ensures(c);
                let k = s@.index_of_first(c).unwrap();
                assert(!(k < i as int));
                assert(!(i < k)) by {
                    if (i as int) < k {
                        assert(s@[i as int] == c);
                    }
                }
            }
            return Some(i);
        }
        i += 1;
    }
    proof {
        s@.index_of_first_ensures(c);
    }
    None
}

} // verus!

verus! {

/// Whether a line holds nothing to read: blank after trimming, or a `#` comment.
pub open spec fn spec_skip_line(line: Seq<char>) -> bool {
    let t = spec_trim(line);
    t.len() == 0 || t[0] == '#'
}

/// The name inside a `[section]` header line.
pub open spec fn spec_section_title(line: Seq<char>) -> Seq<char> {
    strip_end_all(strip_start_all(spec_trim(line), '['), ']')
}

/// A `key=value` line split at its first `=`, both halves trimmed.
pub open spec fn spec_split_key_value(line: Seq<char>) -> Option<(Seq<char>, Seq<char>)> {
    let t = spec_trim(line);
    match t.index_of_first('=') {
        Some(p) => Some((spec_trim(t.take(p)), spec_trim(t.skip(p + 1)))),
        None => None,
    }
}

/// Where a list value is split: at the first separator in it, `,` or `;`.
pub open spec fn separator_position(t: Seq<char>) -> Option<int> {
    match (t.index_of_first(','), t.index_of_first(';')) {
        (Some(c), Some(s)) => Some(
            if s < c {
                s
            } else {
                c
            },
        ),
        (Some(c), None) => Some(c),
        (None, Some(s)) => Some(s),
        (None, None) => None,
    }
}

/// The first token of a list value and what remains after it.
///
/// The value is trimmed; a blank value has no token and leaves nothing. A value
/// without separator is one token. Otherwise the first separator found, `,` or
/// `;`, splits it: the token is the trimmed text before it and the rest is
/// everything after it.
pub open spec fn spec_pop_token(v: Seq<char>) -> (Option<Seq<char>>, Seq<char>) {
    let t = spec_trim(v);
    if t.len() == 0 {
        (None, Seq::empty())
    } else {
        match separator_position(t) {
            None => (Some(t), Seq::empty()),
            Some(p) => (Some(spec_trim(t.take(p))), t.skip(p + 1)),
        }
    }
}

/// The model of an optional character vector.
pub open spec fn opt_view(o: Option<Vec<char>>) -> Option<Seq<char>> {
    match o {
        Some(v) => Some(v@),
        None => None,
    }
}

/// `l` without one trailing carriage return.
pub open spec fn strip_cr(l: Seq<char>) -> Seq<char> {
    if l.len() > 0 && l.last() == '\r' {
        l.drop_last()
    } else {
        l
    }
}

/// The lines of a text, as `str::lines` yields them: split at `\n`, a `\r`
/// before the `\n` removed, no empty line after a final `\n`.
pub open spec fn spec_lines(s: Seq<char>) -> Seq<Seq<char>>
    decreases s.len(),
{
    if s.len() == 0 {
        Seq::empty()
    } else if s.contains('\n') {
        let p = s.index_of_first('\n').unwrap();
        proof {
            s.index_of_first_ensures('\n');
        }
        seq![strip_cr(s.take(p))] + spec_lines(s.skip(p + 1))
    } else {
        seq![s]
    }
}

/// Whether a line is blank or a comment.
pub fn skip_line_chars(line: &[char]) -> (r: bool)
    ensures
        r == spec_skip_line(line@),
{
    let t = trim_chars(line);
    t.len() == 0 || t[0] == '#'
}

/// The name inside a `[section]` header line.
pub fn section_title_chars(line: &[char]) -> (r: &[char])
    ensures
        r@ == spec_section_title(line@),
{
    strip_brackets(trim_chars(line))
}

/// A `key=value` line split at its first `=`, both halves trimmed.
pub fn split_key_value_chars(line: &[char]) -> (r: Option<(&[char], &[char])>)
    ensures
        match r {
            Some((k, v)) => spec_split_key_value(line@) == Some((k@, v@)),
            None => spec_split_key_value(line@) is None,
        },
{
    let t = trim_chars(line);
    match find_char(t, '=') {
        Some(p) => {
            let k = trim_chars(vstd::slice::slice_subrange(t, 0, p));
            let v = trim_chars(vstd::slice::slice_subrange(t, p + 1, t.len()));
            assert(t@.subrange(0, p as int) =~= t@.take(p as int));
            assert(t@.subrange(p + 1, t@.len() as int) =~= t@.skip(p + 1));
            Some((k, v))
        },
        None => None,
    }
}

/// Where the first token of `v` and the rest after it lie inside `v`.
pub fn pop_token_span(v: &[char]) -> (r: (Option<(usize, usize)>, (usize, usize)))
    ensures
        r.1.0 <= r.1.1 <= v.len(),
        v@.subrange(r.1.0 as int, r.1.1 as int) == spec_pop_token(v@).1,
        match r.0 {
            Some((a, b)) => a <= b <= v.len() && spec_pop_token(v@).0 == Some(
                v@.subrange(a as int, b as int),
            ),
            None => spec_pop_token(v@).0 is None,
        },
{
    let (a, b) = trim_span(v);
    let t = vstd::slice::slice_subrange(v, a, b);
    if a == b {
        assert(v@.subrange(b as int, b as int) =~= Seq::<char>::empty());
        return (None, (b, b));
    }
    let sep = match (find_char(t, ','), find_char(t, ';')) {
        (Some(c), Some(s)) => if s < c {
            Some(s)
        } else {
            Some(c)
        },
        (Some(c), None) => Some(c),
        (None, s) => s,
    };
    match sep {
        None => {
            assert(v@.subrange(b as int, b as int) =~= Seq::<char>::empty());
            (Some((a, b)), (b, b))
        },
        Some(p) => {
            let head = vstd::slice::slice_subrange(t, 0, p);
            let (ha, hb) = trim_span(head);
            assert(t@.subrange(0, p as int) =~= t@.take(p as int));
            assert(v@.subrange(a + ha, a + hb) =~= head@.subrange(ha as int, hb as int));
            assert(v@.subrange(a + p + 1, b as int) =~= t@.skip(p + 1));
            (Some((a + ha, a + hb)), (a + p + 1, b))
        },
    }
}

/// The first token of a list value and the rest after it.
pub fn pop_token(v: &[char]) -> (r: (Option<Vec<char>>, &[char]))
    ensures
        opt_view(r.0) == spec_pop_token(v@).0,
        r.1@ == spec_pop_token(v@).1,
{
    let (tok, rest) = pop_token_span(v);
    let rest = vstd::slice::slice_subrange(v, rest.0, rest.1);
    match tok {
        Some((a, b)) => (Some(vstd::slice::slice_to_vec(vstd::slice::slice_subrange(v, a, b))), rest),
        None => (None, rest),
    }
}

/// The lines of a text.
pub fn split_lines(content: &str) -> (r: Vec<Vec<char>>)
    ensures
        r@.map_values(|l: Vec<char>| l@) == spec_lines(content@),
{
    let cs = chars_of(content);
    let mut out: Vec<Vec<char>> = Vec::new();
    let mut start: usize = 0;
    let mut i: usize = 0;
    assert(cs@.skip(0) =~= cs@);
    assert(out@.map_values(|l: Vec<char>| l@) + spec_lines(cs@) =~= spec_lines(cs@));
    while i < cs.len()
        invariant
            start <= i <= cs.len(),
            cs@ == content@,
            forall|j: int| start <= j < i ==> #[trigger] cs@[j] != '\n',
            spec_lines(cs@) == out@.map_values(|l: Vec<char>| l@) + spec_lines(cs@.skip(start as int)),
        decreases cs.len() - i,
    {
        if cs[i] == '\n' {
            let ghost rest = cs@.skip(start as int);
            let mut end = i;
            if end > start && cs[end - 1] == '\r' {
                end -= 1;
            }
            let line = vstd::slice::slice_to_vec(vstd::slice::slice_subrange(cs.as_slice(), start, end));
            proof {
                assert(rest[i - start] == '\n');
                assert(rest.contains('\n'));
                rest.index_of_first_ensures('\n');
                let k = rest.index_of_first('\n').unwrap();
                assert(!(k < i - start)) by {
                    if k < i - start {
                        assert(rest[k] == cs@[start + k]);
                    }
                }
                assert(!(i - start < k));
                assert(line@ =~= strip_cr(rest.take(i - start)));
                assert(rest.skip(i - start + 1) =~= cs@.skip(i + 1));
                assert(out@.push(line).map_values(|l: Vec<char>| l@) =~= out@.map_values(
                    |l: Vec<char>| l@,
                ).push(line@));
            }
            out.push(line);
            start = i + 1;
        }
        i += 1;
    }
    if start < cs.len() {
        let line = vstd::slice::slice_to_vec(vstd::slice::slice_subrange(cs.as_slice(), start, cs.len()));
        proof {
            let rest = cs@.skip(start as int);
            assert(!rest.contains('\n')) by {
                if rest.contains('\n') {
                    let k = choose|k: int| 0 <= k < rest.len() && rest[k] == '\n';
                    assert(cs@[start + k] == '\n');
                }
            }
            assert(line@ =~= rest);
            assert(out@.push(line).map_values(|l: Vec<char>| l@) =~= out@.map_values(
                |l: Vec<char>| l@,
            ).push(line@));
        }
        out.push(line);
        proof {
            assert(spec_lines(cs@.skip(start as int)) =~= seq![cs@.skip(start as int)]);
            assert(out@.map_values(|l: Vec<char>| l@) =~= out@.map_values(|l: Vec<char>| l@)
                + Seq::<Seq<char>>::empty());
        }
    } else {
        assert(cs@.skip(start as int).len() == 0);
        assert(out@.map_values(|l: Vec<char>| l@) =~= out@.map_values(|l: Vec<char>| l@) + Seq::<
            Seq<char>,
        >::empty());
    }
    out
}

} // verus!

verus! {

/// A message made of a fixed text followed by some characters.
pub fn message(prefix: &str, tail: &[char]) -> (r: String)
    ensures
        r@ == prefix@ + tail@,
{
    let mut v = chars_of(prefix);
    let mut i: usize = 0;
    while i < tail.len()
        invariant
            i <= tail.len(),
            v@ == prefix@ + tail@.take(i as int),
        decreases tail.len() - i,
    {
        v.push(tail[i]);
        i += 1;
        assert(prefix@ + tail@.take(i as int) =~= (prefix@ + tail@.take(i - 1)).push(tail@[i - 1]));
    }
    assert(tail@.take(tail.len() as int) =~= tail@);
    string_of(&v)
}

/// Whether `s` starts with the characters of `p`.
pub fn starts_with_str(s: &[char], p: &str) -> (r: bool)
    ensures
        r == (p@.len() <= s@.len() && s@.take(p@.len() as int) == p@),
{
    let pc = chars_of(p);
    if pc.len() > s.len() {
        return false;
    }
    let head = vstd::slice::slice_subrange(s, 0, pc.len());
    assert(head@ =~= s@.take(p@.len() as int));
    eq_str(head, p)
}

/// Whether `s` ends with the characters of `p`.
pub fn ends_with_str(s: &[char], p: &str) -> (r: bool)
    ensures
        r == (p@.len() <= s@.len() && s@.skip(s@.len() - p@.len()) == p@),
{
    let pc = chars_of(p);
    if pc.len() > s.len() {
        return false;
    }
    let tail = vstd::slice::slice_subrange(s, s.len() - pc.len(), s.len());
    assert(tail@ =~= s@.skip(s@.len() - p@.len()));
    eq_str(tail, p)
}

/// The decimal digits of a natural number.
pub open spec fn decimal(n: nat) -> Seq<char>
    decreases n,
{
    if n < 10 {
        seq![digit_char(n)]
    } else {
        decimal(n / 10) + seq![digit_char(n % 10)]
    }
}

/// The character of one decimal digit.
pub open spec fn digit_char(d: nat) -> char {
    if d == 0 { '0' }
    else if d == 1 { '1' }
    else if d == 2 { '2' }
    else if d == 3 { '3' }
    else if d == 4 { '4' }
    else if d == 5 { '5' }
    else if d == 6 { '6' }
    else if d == 7 { '7' }
    else if d == 8 { '8' }
    else { '9' }
}

fn digit_char_exec(d: u64) -> (c: char)
    requires
        d < 10,
    ensures
        c == digit_char(d as nat),
{
    if d == 0 { '0' }
    else if d == 1 { '1' }
    else if d == 2 { '2' }
    else if d == 3 { '3' }
    else if d == 4 { '4' }
    else if d == 5 { '5' }
    else if d == 6 { '6' }
    else if d == 7 { '7' }
    else if d == 8 { '8' }
    else { '9' }
}

/// The decimal digits of `n`.
pub fn decimal_chars(n: u64) -> (r: Vec<char>)
    ensures
        r@ == decimal(n as nat),
    decreases n,
{
    if n < 10 {
        let mut v = Vec::new();
        v.push(digit_char_exec(n));
        assert(v@ =~= seq![digit_char(n as nat)]);
        v
    } else {
        let mut v = decimal_chars(n / 10);
        v.push(digit_char_exec(n % 10));
        assert(v@ =~= decimal((n / 10) as nat) + seq![digit_char((n % 10) as nat)]);
        v
    }
}

} // verus!

verus! {

/// `s` without any of its trailing copies of `c`.
pub fn strip_end_char(s: &[char], c: char) -> (r: &[char])
    ensures
        r@ == strip_end_all(s@, c),
{
    let mut b: usize = s.len();
    while b > 0 && s[b - 1] == c
        invariant
            b <= s.len(),
            forall|k: int| b <= k < s.len() ==> #[trigger] s@[k] == c,
        decreases b,
    {
        b -= 1;
    }
    proof {
        lemma_strip_end_take(s@, c, b as int);
        assert(s@.take(b as int) =~= s@.subrange(0, b as int));
    }
    vstd::slice::slice_subrange(s, 0, b)
}

} // verus!

verus! {

/// Trimming the front of a text never lengthens it.
pub proof fn lemma_trim_start_len(s: Seq<char>)
    ensures
        trim_start(s).len() <= s.len(),
    decreases s.len(),
{
    if s.len() > 0 && is_ws(s[0]) {
        lemma_trim_start_len(s.drop_first());
    }
}

/// Trimming the end of a text never lengthens it.
pub proof fn lemma_trim_end_len(s: Seq<char>)
    ensures
        trim_end(s).len() <= s.len(),
    decreases s.len(),
{
    if s.len() > 0 && is_ws(s.last()) {
        lemma_trim_end_len(s.drop_last());
    }
}

/// Popping a token leaves a strictly shorter rest.
pub proof fn lemma_pop_token_shrinks(v: Seq<char>)
    ensures
        spec_pop_token(v).0 is Some ==> spec_pop_token(v).1.len() < v.len(),
{
    lemma_trim_start_len(v);
    lemma_trim_end_len(trim_start(v));
    let t = spec_trim(v);
    t.index_of_first_ensures(',');
    t.index_of_first_ensures(';');
}

} // verus!

verus! {

proof fn lemma_trim_start_no_lead(s: Seq<char>)
    ensures
        trim_start(s).len() == 0 || !is_ws(trim_start(s)[0]),
    decreases s.len(),
{
    if s.len() > 0 && is_ws(s[0]) {
        lemma_trim_start_no_lead(s.drop_first());
    }
}

proof fn lemma_trim_end_prefix(u: Seq<char>)
    ensures
        trim_end(u).len() <= u.len(),
        trim_end(u) == u.take(trim_end(u).len() as int),
        trim_end(u).len() == 0 || !is_ws(trim_end(u).last()),
    decreases u.len(),
{
    if u.len() > 0 && is_ws(u.last()) {
        lemma_trim_end_prefix(u.drop_last());
        let r = trim_end(u.drop_last());
        assert(u.drop_last().take(r.len() as int) =~= u.take(r.len() as int));
    } else {
        assert(u.take(u.len() as int) =~= u);
    }
}

/// A trimmed text starts and ends with no whitespace.
pub proof fn lemma_trim_ends(s: Seq<char>)
    ensures
        spec_trim(s).len() == 0 || (!is_ws(spec_trim(s)[0]) && !is_ws(spec_trim(s).last())),
{
    lemma_trim_start_no_lead(s);
    lemma_trim_end_prefix(trim_start(s));
}

/// Trimming a trimmed text changes nothing.
pub proof fn lemma_trim_idempotent(s: Seq<char>)
    ensures
        spec_trim(spec_trim(s)) == spec_trim(s),
{
    let t = spec_trim(s);
    lemma_trim_ends(s);
    assert(trim_start(t) == t);
    assert(trim_end(t) == t);
}

} // verus!

verus! {

/// A text has no more lines than characters.
pub proof fn lemma_lines_len(s: Seq<char>)
    ensures
        spec_lines(s).len() <= s.len(),
    decreases s.len(),
{
    if s.len() > 0 && s.contains('\n') {
        s.index_of_first_ensures('\n');
        let p = s.index_of_first('\n').unwrap();
        lemma_lines_len(s.skip(p + 1));
    }
}

proof fn lemma_trim_fixed(s: Seq<char>)
    requires
        s.len() == 0 || (!is_ws(s[0]) && !is_ws(s.last())),
    ensures
        spec_trim(s) == s,
{
}

/// A line `key=value`, with a key free of `=` and both halves free of
/// surrounding whitespace, splits back into that key and that value.
pub proof fn lemma_split_key_value_round_trip(k: Seq<char>, v: Seq<char>)
    requires
        k.len() > 0,
        !is_ws(k[0]),
        !is_ws(k.last()),
        !k.contains('='),
        v.len() == 0 || (!is_ws(v[0]) && !is_ws(v.last())),
    ensures
        spec_split_key_value(k + seq!['='] + v) == Some((k, v)),
{
    let line = k + seq!['='] + v;
    assert(line[0] == k[0]);
    assert(line.last() == if v.len() > 0 { v.last() } else { '=' });
    assert(is_ws('=') == false);
    lemma_trim_fixed(line);
    lemma_trim_fixed(k);
    lemma_trim_fixed(v);
    line.index_of_first_ensures('=');
    assert(line[k.len() as int] == '=');
    match line.index_of_first('=') {
        Some(p) => {
            if p < k.len() {
                assert(line[p] == k[p]);
                assert(k.contains('='));
            }
            assert(p == k.len());
        },
        None => {
            assert(line.contains('='));
        },
    }
    assert(line.take(k.len() as int) =~= k);
    assert(line.skip(k.len() as int + 1) =~= v);
}

} // verus!
