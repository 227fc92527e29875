use vstd::prelude::*;

verus! {

/// The characters of `s`, one by one.
pub fn chars_of(s: &str) -> (v: Vec<char>)
    ensures
        v@ == s@,
{
    let mut v: Vec<char> = Vec::new();
    for c in it: s.chars()
        invariant
            v@ == it.seq().take(it.index()),
            it.seq() == s@,
    {
        v.push(c);
    }
    v
}

/// Whether two strings hold the same characters.
pub fn str_eq(a: &str, b: &str) -> (r: bool)
    ensures
        r == (a@ == b@),
{
    a.to_owned() == b.to_owned()
}

/// ASCII upper-case letters mapped to lower case; every other character kept.
pub open spec fn ascii_lower(c: char) -> char {
    if 'A' <= c && c <= 'Z' {
        ((c as int) + 32) as char
    } else {
        c
    }
}

/// Two texts that are equal once ASCII letters are folded to lower case.
pub open spec fn eq_ascii_fold(a: Seq<char>, b: Seq<char>) -> bool {
    &&& a.len() == b.len()
    &&& forall|i: int| 0 <= i < a.len() ==> ascii_lower(#[trigger] a[i]) == ascii_lower(b[i])
}

/// ASCII lower-case letters mapped to upper case; every other character kept.
pub open spec fn ascii_upper(c: char) -> char {
    if 'a' <= c && c <= 'z' {
        ((c as int) - 32) as char
    } else {
        c
    }
}

/// Folding maps each of the 26 upper-case ASCII letters to its lower-case
/// letter, thirty-two code points up, and keeps every other character.
pub proof fn lemma_ascii_lower_letters(c: char)
    ensures
        'A' <= c && c <= 'Z' ==> ascii_lower(c) as int == c as int + 32 && 'a' <= ascii_lower(c)
            && ascii_lower(c) <= 'z',
        !('A' <= c && c <= 'Z') ==> ascii_lower(c) == c,
{
}

/// A character and its upper-case form fold to the same character.
pub proof fn lemma_ascii_fold_upper(c: char)
    ensures
        ascii_lower(ascii_upper(c)) == ascii_lower(c),
{
}

/// A text with its ASCII letters written in upper case.
pub open spec fn upper_text(s: Seq<char>) -> Seq<char> {
    s.map_values(|c: char| ascii_upper(c))
}

/// A text written in ASCII upper case equals the text once case is ignored.
pub proof fn lemma_eq_ascii_fold_upper(s: Seq<char>)
    ensures
        eq_ascii_fold(upper_text(s), s),
{
    let u = upper_text(s);
    assert forall|i: int| 0 <= i < u.len() implies ascii_lower(#[trigger] u[i]) == ascii_lower(s[i]) by {
        lemma_ascii_fold_upper(s[i]);
    }
}

/// Folds one ASCII upper-case letter to lower case.
pub fn to_ascii_lower(c: char) -> (r: char)
    ensures
        r == ascii_lower(c),
{
    if 'A' <= c && c <= 'Z' {
        let b: u8 = c as u8;
        let l: u8 = b + 32;
        l as char
    } else {
        c
    }
}

/// Compares two strings, ignoring the case of ASCII letters.
pub fn eq_ignore_ascii_case(a: &str, b: &str) -> (r: bool)
    ensures
        r == eq_ascii_fold(a@, b@),
{
    let ca = chars_of(a);
    let cb = chars_of(b);
    if ca.len() != cb.len() {
        return false;
    }
    let n = ca.len();
    let mut i: usize = 0;
    while i < n
        invariant
            n == ca.len(),
            n == cb.len(),
            ca@ == a@,
            cb@ == b@,
            0 <= i <= n,
            forall|j: int| 0 <= j < i ==> ascii_lower(#[trigger] a@[j]) == ascii_lower(b@[j]),
        decreases n - i,
    {
        if to_ascii_lower(ca[i]) != to_ascii_lower(cb[i]) {
            return false;
        }
        i += 1;
    }
    true
}

/// Position of the first `c` in `s`, or the length of `s` where it has none.
pub open spec fn first_pos(s: Seq<char>, c: char) -> nat
    decreases s.len(),
{
    if s.len() == 0 {
        0
    } else if s[0] == c {
        0
    } else {
        1 + first_pos(s.drop_first(), c)
    }
}

/// A line with its trailing carriage return, if any, removed.
pub open spec fn strip_cr(line: Seq<char>) -> Seq<char> {
    if line.len() > 0 && line.last() == '\r' {
        line.drop_last()
    } else {
        line
    }
}

/// The lines of a text: split at each line feed, with a carriage return just
/// before the line feed dropped; the final line feed is optional, and an
/// empty text has no lines.
pub open spec fn spec_lines(s: Seq<char>) -> Seq<Seq<char>>
    decreases s.len(),
{
    if s.len() == 0 {
        seq![]
    } else {
        let k = first_pos(s, '\n');
        if k >= s.len() {
            seq![s]
        } else {
            seq![strip_cr(s.take(k as int))] + spec_lines(s.skip(k + 1 as int))
        }
    }
}

/// The texts that a sequence of string slices hold.
pub open spec fn views(v: Seq<&str>) -> Seq<Seq<char>> {
    v.map_values(|l: &str| l@)
}

/// `k` is the first position of `c` when no `c` comes before it.
pub proof fn lemma_first_pos(s: Seq<char>, c: char, k: int)
    requires
        0 <= k <= s.len(),
        forall|j: int| 0 <= j < k ==> s[j] != c,
        k == s.len() || s[k] == c,
    ensures
        first_pos(s, c) == k,
    decreases k,
{
    if k > 0 {
        lemma_first_pos(s.drop_first(), c, k - 1);
    }
}

/// The lines of `s`, as `str::lines` splits them.
pub fn split_lines<'a>(s: &'a str) -> (r: Vec<&'a str>)
    ensures
        views(r@) == spec_lines(s@),
{
    let cs = chars_of(s);
    let n = cs.len();
    let mut r: Vec<&'a str> = Vec::new();
    let mut start: usize = 0;
    let mut i: usize = 0;
    assert(s@.skip(0) =~= s@);
    assert(views(r@) + spec_lines(s@) =~= spec_lines(s@));
    while i < n
        invariant
            cs@ == s@,
            n == s@.len(),
            0 <= start <= i <= n,
            forall|j: int| start <= j < i ==> s@[j] != '\n',
            spec_lines(s@) == views(r@) + spec_lines(s@.skip(start as int)),
        decreases n - i,
    {
        if cs[i] == '\n' {
            let end = if i > start && cs[i - 1] == '\r' {
                i - 1
            } else {
                i
            };
            let line = s.substring_char(start, end);
            proof {
                let t = s@.skip(start as int);
                lemma_first_pos(t, '\n', i - start);
                assert(t.take(i - start) =~= s@.subrange(start as int, i as int));
                assert(strip_cr(t.take(i - start)) =~= line@);
                assert(t.skip(i - start + 1) =~= s@.skip(i + 1));
                assert(views(r@.push(line)) =~= views(r@).push(line@));
            }
            r.push(line);
            start = i + 1;
        }
        i += 1;
    }
    if start < n {
        let line = s.substring_char(start, n);
        proof {
            let t = s@.skip(start as int);
            lemma_first_pos(t, '\n', n - start);
            assert(t =~= line@);
            assert(views(r@.push(line)) =~= views(r@).push(line@));
        }
        r.push(line);
    } else {
        assert(s@.skip(start as int) =~= Seq::<char>::empty());
    }
    assert(views(r@) + seq![] =~= views(r@));
    r
}

/// Texts joined with a line feed between each two.
pub open spec fn join_lines(ls: Seq<Seq<char>>) -> Seq<char>
    decreases ls.len(),
{
    if ls.len() == 0 {
        seq![]
    } else if ls.len() == 1 {
        ls[0]
    } else {
        ls[0] + seq!['\n'] + join_lines(ls.drop_first())
    }
}

/// `n` spaces.
pub open spec fn blanks(n: nat) -> Seq<char> {
    Seq::new(n, |_i: int| ' ')
}

/// Each text with `prefix` put in front of it.
pub open spec fn prefixed(ls: Seq<Seq<char>>, prefix: Seq<char>) -> Seq<Seq<char>> {
    ls.map_values(|l: Seq<char>| prefix + l)
}

/// The text with each of its lines indented by `n` spaces; the lines are
/// joined with line feeds, so a final line feed is not kept.
pub open spec fn spec_indent(s: Seq<char>, n: nat) -> Seq<char> {
    join_lines(prefixed(spec_lines(s), blanks(n)))
}

/// Joining one more text adds a line feed and that text.
pub proof fn lemma_join_push(ls: Seq<Seq<char>>, l: Seq<char>)
    requires
        ls.len() > 0,
    ensures
        join_lines(ls.push(l)) == join_lines(ls) + seq!['\n'] + l,
    decreases ls.len(),
{
    if ls.len() == 1 {
        assert(ls.push(l).drop_first() =~= seq![l]);
        assert(join_lines(seq![l]) == l);
        assert(ls.push(l)[0] == ls[0]);
        assert(join_lines(ls) == ls[0]);
    } else {
        assert(ls.push(l)[0] == ls[0]);
        lemma_join_push(ls.drop_first(), l);
        assert(ls.push(l).drop_first() =~= ls.drop_first().push(l));
        assert(join_lines(ls.push(l)) =~= join_lines(ls) + seq!['\n'] + l);
    }
}

/// Indents every line of `input` by `spaces` spaces.
pub fn indent(input: &str, spaces: usize) -> (r: String)
    ensures
        r@ == spec_indent(input@, spaces as nat),
{
    let mut prefix = String::new();
    let mut k: usize = 0;
    proof {
        reveal_strlit(" ");
    }
    while k < spaces
        invariant
            0 <= k <= spaces,
            prefix@ == Seq::new(k as nat, |_i: int| ' '),
            " "@ == seq![' '],
        decreases spaces - k,
    {
        prefix.append(" ");
        k += 1;
        assert(prefix@ =~= Seq::new(k as nat, |_i: int| ' '));
    }
    let lines = split_lines(input);
    let ghost ls = prefixed(views(lines@), blanks(spaces as nat));
    let mut out = String::new();
    let n = lines.len();
    let mut i: usize = 0;
    proof {
        reveal_strlit("\n");
    }
    while i < n
        invariant
            n == lines.len(),
            0 <= i <= n,
            prefix@ == blanks(spaces as nat),
            ls == prefixed(views(lines@), blanks(spaces as nat)),
            ls.len() == n,
            out@ == join_lines(ls.take(i as int)),
            "\n"@ == seq!['\n'],
        decreases n - i,
    {
        if i > 0 {
            out.append("\n");
        }
        out.append(prefix.as_str());
        out.append(lines[i]);
        proof {
            assert(ls[i as int] == prefix@ + lines@[i as int]@);
            if i == 0 {
                assert(ls.take(1) =~= seq![ls[0]]);
            } else {
                lemma_join_push(ls.take(i as int), ls[i as int]);
                assert(ls.take(i as int).push(ls[i as int]) =~= ls.take(i + 1));
            }
        }
        i += 1;
    }
    assert(ls.take(n as int) =~= ls);
    out
}

/// The character of a decimal digit.
pub open spec fn digit_char(d: int) -> char {
    (d + 48) as char
}

/// The decimal notation of `n`, without leading zeros.
pub open spec fn decimal_text(n: nat) -> Seq<char>
    decreases n,
{
    if n < 10 {
        seq![digit_char(n as int)]
    } else {
        decimal_text(n / 10) + seq![digit_char((n % 10) as int)]
    }
}

/// The number that a text of decimal digits reads as.
pub open spec fn digits_value(s: Seq<char>) -> int
    decreases s.len(),
{
    if s.len() == 0 {
        0
    } else {
        digits_value(s.drop_last()) * 10 + (s.last() as int - 48)
    }
}

/// Decimal notation is made of digits only, starts with a digit other than
/// zero unless the number is zero, and reads back as the number written.
pub proof fn lemma_decimal_text_value(n: nat)
    ensures
        decimal_text(n).len() > 0,
        forall|i: int| 0 <= i < decimal_text(n).len() ==> '0' <= #[trigger] decimal_text(n)[i] <= '9',
        n > 0 ==> decimal_text(n)[0] != '0',
        digits_value(decimal_text(n)) == n,
    decreases n,
{
    if n >= 10 {
        lemma_decimal_text_value(n / 10);
        let t = decimal_text(n);
        assert(t.drop_last() =~= decimal_text(n / 10));
        assert(t[0] == decimal_text(n / 10)[0]);
        assert(t.last() == digit_char((n % 10) as int));
        assert(t.last() as int - 48 == n % 10);
        assert(digits_value(t) == digits_value(decimal_text(n / 10)) * 10 + (t.last() as int - 48));
        assert((n / 10) * 10 + n % 10 == n);
    } else {
        let t = decimal_text(n);
        assert(t.drop_last() =~= Seq::<char>::empty());
        assert(digits_value(Seq::<char>::empty()) == 0);
        assert(t.last() as int - 48 == n);
    }
}

/// The one-character text of the decimal digit `d`.
pub fn digit_str(d: u32) -> (s: &'static str)
    requires
        d < 10,
    ensures
        s@ == seq![digit_char(d as int)],
{
    if d == 0 {
        proof { reveal_strlit("0"); }
        "0"
    } else if d == 1 {
        proof { reveal_strlit("1"); }
        "1"
    } else if d == 2 {
        proof { reveal_strlit("2"); }
        "2"
    } else if d == 3 {
        proof { reveal_strlit("3"); }
        "3"
    } else if d == 4 {
        proof { reveal_strlit("4"); }
        "4"
    } else if d == 5 {
        proof { reveal_strlit("5"); }
        "5"
    } else if d == 6 {
        proof { reveal_strlit("6"); }
        "6"
    } else if d == 7 {
        proof { reveal_strlit("7"); }
        "7"
    } else if d == 8 {
        proof { reveal_strlit("8"); }
        "8"
    } else {
        proof { reveal_strlit("9"); }
        "9"
    }
}

/// Appends the decimal notation of `n`.
pub fn push_decimal(out: &mut String, n: u32)
    ensures
        final(out)@ == old(out)@ + decimal_text(n as nat),
    decreases n,
{
    if n >= 10 {
        push_decimal(out, n / 10);
    }
    out.append(digit_str(n % 10));
    assert(final(out)@ =~= old(out)@ + decimal_text(n as nat));
}

/// Whether `n` occurs in `h` as a run of consecutive characters.
pub open spec fn contains_text(h: Seq<char>, n: Seq<char>) -> bool {
    exists|k: int| 0 <= k && k + n.len() <= h.len() && #[trigger] h.subrange(k, k + n.len()) == n
}

/// A text holds whatever stands between its two parts.
pub proof fn lemma_contains_middle(a: Seq<char>, n: Seq<char>, b: Seq<char>)
    ensures
        contains_text(a + n + b, n),
{
    let h = a + n + b;
    assert(h.subrange(a.len() as int, (a.len() + n.len()) as int) =~= n);
}

/// What a part holds, the whole holds.
pub proof fn lemma_contains_trans(h: Seq<char>, m: Seq<char>, n: Seq<char>)
    requires
        contains_text(h, m),
        contains_text(m, n),
    ensures
        contains_text(h, n),
{
    let k1 = choose|k: int| 0 <= k && k + m.len() <= h.len() && #[trigger] h.subrange(k, k + m.len()) == m;
    let k2 = choose|k: int| 0 <= k && k + n.len() <= m.len() && #[trigger] m.subrange(k, k + n.len()) == n;
    assert(h.subrange(k1 + k2, k1 + k2 + n.len()) =~= n);
}

/// Joined lines hold each of the lines.
pub proof fn lemma_join_contains(ls: Seq<Seq<char>>, i: int)
    requires
        0 <= i < ls.len(),
    ensures
        contains_text(join_lines(ls), ls[i]),
    decreases ls.len(),
{
    if ls.len() == 1 {
        lemma_contains_middle(seq![], ls[0], seq![]);
        assert(seq![] + ls[0] + seq![] =~= ls[0]);
    } else if i == 0 {
        lemma_contains_middle(seq![], ls[0], seq!['\n'] + join_lines(ls.drop_first()));
        assert(seq![] + ls[0] + (seq!['\n'] + join_lines(ls.drop_first())) =~= join_lines(ls));
    } else {
        lemma_join_contains(ls.drop_first(), i - 1);
        let rest = join_lines(ls.drop_first());
        lemma_contains_middle(ls[0] + seq!['\n'], rest, seq![]);
        assert(ls[0] + seq!['\n'] + rest + seq![] =~= join_lines(ls));
        lemma_contains_trans(join_lines(ls), rest, ls[i]);
    }
}

/// A text with neither line feeds nor carriage returns.
pub open spec fn plain_line(l: Seq<char>) -> bool {
    forall|i: int| 0 <= i < l.len() ==> l[i] != '\n' && l[i] != '\r'
}

/// Lines without line breaks, the last of them not empty, split back into
/// themselves once joined.
pub proof fn lemma_lines_of_join(ls: Seq<Seq<char>>)
    requires
        ls.len() > 0,
        forall|k: int| 0 <= k < ls.len() ==> plain_line(#[trigger] ls[k]),
        ls.last().len() > 0,
    ensures
        spec_lines(join_lines(ls)) == ls,
    decreases ls.len(),
{
    let l0 = ls[0];
    if ls.len() == 1 {
        lemma_first_pos(l0, '\n', l0.len() as int);
        assert(spec_lines(l0) =~= seq![l0]);
        assert(ls =~= seq![l0]);
    } else {
        let tail = ls.drop_first();
        assert(tail.last() == ls.last());
        lemma_lines_of_join(tail);
        let rest = join_lines(tail);
        lemma_join_contains(tail, tail.len() - 1);
        let t = l0 + seq!['\n'] + rest;
        assert(t == join_lines(ls));
        lemma_first_pos(t, '\n', l0.len() as int);
        assert(t.take(l0.len() as int) =~= l0);
        assert(strip_cr(l0) == l0);
        assert(t.skip(l0.len() + 1 as int) =~= rest);
        assert(spec_lines(t) =~= seq![l0] + tail);
        assert(seq![l0] + tail =~= ls);
    }
}

/// Lines without line breaks, each ended by a line feed, split back into
/// themselves.
pub proof fn lemma_lines_of_terminated(ls: Seq<Seq<char>>)
    requires
        ls.len() > 0,
        forall|k: int| 0 <= k < ls.len() ==> plain_line(#[trigger] ls[k]),
    ensures
        spec_lines(join_lines(ls) + seq!['\n']) == ls,
    decreases ls.len(),
{
    let l0 = ls[0];
    if ls.len() == 1 {
        let t = l0 + seq!['\n'];
        assert(join_lines(ls) == l0);
        lemma_first_pos(t, '\n', l0.len() as int);
        assert(t.take(l0.len() as int) =~= l0);
        assert(t.skip(l0.len() + 1 as int) =~= Seq::<char>::empty());
        assert(strip_cr(l0) == l0);
        assert(spec_lines(Seq::<char>::empty()) == Seq::<Seq<char>>::empty());
        assert(spec_lines(t) =~= seq![l0]);
        assert(ls =~= seq![l0]);
    } else {
        let tail = ls.drop_first();
        lemma_lines_of_terminated(tail);
        let rest = join_lines(tail) + seq!['\n'];
        let t = l0 + seq!['\n'] + rest;
        assert(t =~= join_lines(ls) + seq!['\n']);
        lemma_first_pos(t, '\n', l0.len() as int);
        assert(t.take(l0.len() as int) =~= l0);
        assert(strip_cr(l0) == l0);
        assert(t.skip(l0.len() + 1 as int) =~= rest);
        assert(spec_lines(t) =~= seq![l0] + tail);
        assert(seq![l0] + tail =~= ls);
    }
}

/// Two plain texts make a plain text.
pub proof fn lemma_plain_concat(a: Seq<char>, b: Seq<char>)
    requires
        plain_line(a),
        plain_line(b),
    ensures
        plain_line(a + b),
{
    assert forall|i: int| 0 <= i < (a + b).len() implies (a + b)[i] != '\n' && (a + b)[i] != '\r' by {
        if i < a.len() {
            assert((a + b)[i] == a[i]);
        } else {
            assert((a + b)[i] == b[i - a.len()]);
        }
    }
}

/// Decimal notation holds only digits.
pub proof fn lemma_decimal_plain(n: nat)
    ensures
        plain_line(decimal_text(n)),
    decreases n,
{
    if n >= 10 {
        lemma_decimal_plain(n / 10);
        lemma_plain_concat(decimal_text(n / 10), seq![digit_char((n % 10) as int)]);
    }
}

/// Characters with the Unicode `White_Space` property, which `str::trim`
/// removes.
pub open spec fn is_white_space(c: char) -> bool {
    let u = c as u32;
    (9 <= u && u <= 13) || u == 32 || u == 0x85 || u == 0xA0 || u == 0x1680 || (0x2000 <= u && u
        <= 0x200A) || u == 0x2028 || u == 0x2029 || u == 0x202F || u == 0x205F || u == 0x3000
}

/// A text that is empty once trimmed: white space only.
pub open spec fn is_blank(s: Seq<char>) -> bool {
    forall|i: int| 0 <= i < s.len() ==> is_white_space(#[trigger] s[i])
}

/// Whether `c` is white space.
pub fn is_white_space_char(c: char) -> (r: bool)
    ensures
        r == is_white_space(c),
{
    let u = c as u32;
    (9 <= u && u <= 13) || u == 32 || u == 0x85 || u == 0xA0 || u == 0x1680 || (0x2000 <= u && u
        <= 0x200A) || u == 0x2028 || u == 0x2029 || u == 0x202F || u == 0x205F || u == 0x3000
}

/// Whether `s` holds white space only.
pub fn blank(s: &str) -> (r: bool)
    ensures
        r == is_blank(s@),
{
    let cs = chars_of(s);
    let mut i: usize = 0;
    while i < cs.len()
        invariant
            cs@ == s@,
            0 <= i <= cs.len(),
            forall|j: int| 0 <= j < i ==> is_white_space(#[trigger] s@[j]),
        decreases cs.len() - i,
    {
        if !is_white_space_char(cs[i]) {
            return false;
        }
        i += 1;
    }
    true
}

} // verus!
