//! String utilities.

use vstd::prelude::*;

verus! {

/// Joins the strings of `list`, with `sep` between each two of them.
pub open spec fn seq_join(list: Seq<Seq<char>>, sep: Seq<char>) -> Seq<char>
    decreases list.len(),
{
    if list.len() == 0 {
        seq![]
    } else if list.len() == 1 {
        list[0]
    } else {
        seq_join(list.drop_last(), sep) + sep + list.last()
    }
}

/// The contents of the `Some` entries of `items`, in order.
pub open spec fn somes(items: Seq<Option<Seq<char>>>) -> Seq<Seq<char>>
    decreases items.len(),
{
    if items.len() == 0 {
        seq![]
    } else {
        match items.last() {
            Some(s) => somes(items.drop_last()).push(s),
            None => somes(items.drop_last()),
        }
    }
}

/// What `join_options` returns: `None` when no entry is `Some`, else the `Some`
/// entries joined by `sep`.
pub open spec fn join_opts(sep: Seq<char>, items: Seq<Option<Seq<char>>>) -> Option<Seq<char>> {
    if somes(items).len() == 0 {
        None
    } else {
        Some(seq_join(somes(items), sep))
    }
}

/// Joins two optional strings with `sep`.
pub open spec fn join2(sep: Seq<char>, a: Option<Seq<char>>, b: Option<Seq<char>>) -> Option<Seq<char>> {
    match (a, b) {
        (Some(x), Some(y)) => Some(x + sep + y),
        (Some(x), None) => Some(x),
        (None, Some(y)) => Some(y),
        (None, None) => None,
    }
}

/// The views of a sequence of optional strings.
pub open spec fn opt_views(items: Seq<Option<String>>) -> Seq<Option<Seq<char>>> {
    items.map_values(|o: Option<String>| opt_view(o))
}

/// The view of an optional string.
pub open spec fn opt_view(s: Option<String>) -> Option<Seq<char>> {
    match s {
        Some(s) => Some(s@),
        None => None,
    }
}

/// Combines all elements into one String, separated by `sep`. Returns `None` if all elements are `None`.
pub fn join_options(sep: &str, items: Vec<Option<String>>) -> (r: Option<String>)
    ensures
        opt_view(r) == join_opts(sep@, opt_views(items@)),
{
    let mut res = String::new();
    let mut found = false;
    let mut i: usize = 0;
    while i < items.len()
        invariant
            i <= items@.len(),
            found == (somes(opt_views(items@).take(i as int)).len() > 0),
            res@ == seq_join(somes(opt_views(items@).take(i as int)), sep@),
        decreases items@.len() - i,
    {
        proof {
            assert(opt_views(items@).take(i as int + 1).drop_last() =~= opt_views(items@).take(i as int));
            assert(opt_views(items@).take(i as int + 1).last() == opt_view(items@[i as int]));
        }
        match &items[i] {
            Some(s) => {
                proof {
                    let l = somes(opt_views(items@).take(i as int));
                    assert(l.push(s@).drop_last() =~= l);
                }
                if found {
                    res.append(sep);
                }
                res.append(s.as_str());
                found = true;
            }
            None => {}
        }
        i = i + 1;
    }
    assert(opt_views(items@).take(items@.len() as int) =~= opt_views(items@));
    if found {
        Some(res)
    } else {
        None
    }
}

/// Adding an entry at the end of the items adds its contents, if any, at the end.
pub proof fn lemma_somes_push(items: Seq<Option<Seq<char>>>, x: Option<Seq<char>>)
    ensures
        somes(items.push(x)) == match x {
            Some(s) => somes(items).push(s),
            None => somes(items),
        },
{
    assert(items.push(x).drop_last() =~= items);
}

/// Joining one more string adds the separator and the string.
pub proof fn lemma_seq_join_push(list: Seq<Seq<char>>, sep: Seq<char>, x: Seq<char>)
    ensures
        seq_join(list.push(x), sep) == if list.len() == 0 { x } else { seq_join(list, sep) + sep + x },
{
    assert(list.push(x).drop_last() =~= list);
}

/// Joins two optional strings with `sep`, as `join_options` does for two entries.
pub fn join_two(sep: &str, a: Option<String>, b: Option<String>) -> (r: Option<String>)
    ensures
        opt_view(r) == join2(sep@, opt_view(a), opt_view(b)),
{
    let ghost av = opt_view(a);
    let ghost bv = opt_view(b);
    let items = vec![a, b];
    let r = join_options(sep, items);
    proof {
        let v = opt_views(items@);
        assert(v =~= Seq::<Option<Seq<char>>>::empty().push(av).push(bv));
        lemma_somes_push(Seq::<Option<Seq<char>>>::empty().push(av), bv);
        lemma_somes_push(Seq::<Option<Seq<char>>>::empty(), av);
        lemma_seq_join_push(Seq::<Seq<char>>::empty(), sep@, seq![]);
        match av {
            Some(x) => {
                lemma_seq_join_push(Seq::<Seq<char>>::empty(), sep@, x);
                match bv {
                    Some(y) => {
                        lemma_seq_join_push(seq![x], sep@, y);
                        assert(Seq::<Seq<char>>::empty().push(x) =~= seq![x]);
                    }
                    None => {}
                }
            }
            None => {
                match bv {
                    Some(y) => {
                        lemma_seq_join_push(Seq::<Seq<char>>::empty(), sep@, y);
                    }
                    None => {}
                }
            }
        }
    }
    r
}

/// Joins `list` with `sep` between each two strings.
pub fn join_strings(list: &Vec<String>, sep: &str) -> (r: String)
    ensures
        r@ == seq_join(list@.map_values(|s: String| s@), sep@),
{
    let mut res = String::new();
    let ghost views = list@.map_values(|s: String| s@);
    let mut i: usize = 0;
    while i < list.len()
        invariant
            i <= list@.len(),
            views == list@.map_values(|s: String| s@),
            res@ == seq_join(views.take(i as int), sep@),
        decreases list@.len() - i,
    {
        proof {
            assert(views.take(i as int + 1).drop_last() =~= views.take(i as int));
        }
        if i > 0 {
            res.append(sep);
        }
        res.append(list[i].as_str());
        i = i + 1;
    }
    assert(views.take(list@.len() as int) =~= views);
    res
}

/// The decimal digit character for `d < 10`.
pub open spec fn digit_char(d: nat) -> char {
    (d + 48) as char
}

/// Decimal representation of a natural number, without leading zeros.
pub open spec fn nat_to_decimal(n: nat) -> Seq<char>
    decreases n,
{
    if n < 10 {
        seq![digit_char(n)]
    } else {
        nat_to_decimal(n / 10).push(digit_char(n % 10))
    }
}

/// The one-character string of a decimal digit.
fn digit_str(d: usize) -> (r: &'static str)
    requires
        d < 10,
    ensures
        r@ == seq![digit_char(d as nat)],
{
    proof {
        reveal_strlit("0");
        reveal_strlit("1");
        reveal_strlit("2");
        reveal_strlit("3");
        reveal_strlit("4");
        reveal_strlit("5");
        reveal_strlit("6");
        reveal_strlit("7");
        reveal_strlit("8");
        reveal_strlit("9");
    }
    let r = if d == 0 {
        "0"
    } else if d == 1 {
        "1"
    } else if d == 2 {
        "2"
    } else if d == 3 {
        "3"
    } else if d == 4 {
        "4"
    } else if d == 5 {
        "5"
    } else if d == 6 {
        "6"
    } else if d == 7 {
        "7"
    } else if d == 8 {
        "8"
    } else {
        "9"
    };
    assert(r@ =~= seq![digit_char(d as nat)]);
    r
}

/// Appends the decimal representation of `n` to `out`.
fn write_decimal(n: usize, out: &mut String)
    ensures
        final(out)@ == old(out)@ + nat_to_decimal(n as nat),
    decreases n,
{
    let ghost start = out@;
    if n >= 10 {
        write_decimal(n / 10, out);
    }
    out.append(digit_str(n % 10));
    proof {
        if n >= 10 {
            assert(out@ =~= start + nat_to_decimal(n as nat));
        } else {
            assert(out@ =~= start + nat_to_decimal(n as nat));
        }
    }
}

/// Decimal representation of `n`, as `n.to_string()` gives it.
pub fn usize_to_string(n: usize) -> (r: String)
    ensures
        r@ == nat_to_decimal(n as nat),
{
    let mut out = String::new();
    write_decimal(n, &mut out);
    assert(out@ =~= nat_to_decimal(n as nat));
    out
}

/// Whether two strings hold the same characters.
pub fn eq_str(a: &str, b: &str) -> (r: bool)
    ensures
        r == (a@ == b@),
{
    let x = a.to_owned();
    let y = b.to_owned();
    x.eq(&y)
}

/// Whether `c` has Unicode's White_Space property: tab, line feed, vertical tab, form feed,
/// carriage return, space, next line, no-break space, ogham space mark, the spaces from en
/// quad to hair space, line separator, paragraph separator, narrow no-break space, medium
/// mathematical space and ideographic space.
pub open spec fn white_space(c: char) -> bool {
    let u = c as u32;
    ||| 0x9 <= u <= 0xD
    ||| u == 0x20
    ||| u == 0x85
    ||| u == 0xA0
    ||| u == 0x1680
    ||| 0x2000 <= u <= 0x200A
    ||| u == 0x2028
    ||| u == 0x2029
    ||| u == 0x202F
    ||| u == 0x205F
    ||| u == 0x3000
}

/// Whether `c` is whitespace, as `char::is_whitespace` tells: whether it has Unicode's
/// White_Space property.
pub fn is_whitespace(c: char) -> (r: bool)
    ensures
        r == white_space(c),
{
    let u = c as u32;
    (0x9 <= u && u <= 0xD) || u == 0x20 || u == 0x85 || u == 0xA0 || u == 0x1680 || (0x2000 <= u && u <= 0x200A)
        || u == 0x2028 || u == 0x2029 || u == 0x202F || u == 0x205F || u == 0x3000
}

/// `String::from_iter` over characters: the string of the characters of `v`.
#[verifier::external_body]
pub(crate) fn string_from_chars(v: &Vec<char>) -> (r: String)
    ensures
        r@ == v@,
{
    String::from_iter(v.iter())
}

/// The characters of a string.
pub fn chars_of(s: &str) -> (r: Vec<char>)
    ensures
        r@ == s@,
{
    let n = s.unicode_len();
    let mut out: Vec<char> = Vec::new();
    let mut i: usize = 0;
    while i < n
        invariant
            i <= n,
            n == s@.len(),
            out@ == s@.take(i as int),
        decreases n - i,
    {
        out.push(s.get_char(i));
        assert(out@ =~= s@.take(i + 1));
        i += 1;
    }
    assert(s@.take(n as int) =~= s@);
    out
}

/// The characters of `s` from `a` to `b`.
pub fn sub_chars(s: &Vec<char>, a: usize, b: usize) -> (r: Vec<char>)
    requires
        a <= b <= s.len(),
    ensures
        r@ == s@.subrange(a as int, b as int),
{
    let mut out: Vec<char> = Vec::new();
    let mut i: usize = a;
    while i < b
        invariant
            a <= i <= b <= s.len(),
            out@ == s@.subrange(a as int, i as int),
        decreases b - i,
    {
        out.push(s[i]);
        assert(out@ =~= s@.subrange(a as int, i + 1));
        i += 1;
    }
    out
}

/// The pieces of `s` between the occurrences of `sep`, found from left to
/// right without overlap, as `str::split` gives them; `cur` is the start of
/// the first piece.
pub open spec fn split_acc(s: Seq<char>, sep: Seq<char>, cur: Seq<char>) -> Seq<Seq<char>>
    decreases s.len(),
{
    if s.len() == 0 {
        seq![cur]
    } else if sep.len() > 0 && s.len() >= sep.len() && s.take(sep.len() as int) == sep {
        seq![cur] + split_acc(s.skip(sep.len() as int), sep, seq![])
    } else {
        split_acc(s.skip(1), sep, cur.push(s[0]))
    }
}

/// The pieces of `s` between the occurrences of `sep`, as `str::split` gives
/// them.
pub open spec fn split_on(s: Seq<char>, sep: Seq<char>) -> Seq<Seq<char>> {
    split_acc(s, sep, seq![])
}

/// Views of lists of characters.
pub open spec fn chars_views(v: Seq<Vec<char>>) -> Seq<Seq<char>> {
    v.map_values(|x: Vec<char>| x@)
}

/// Whether `sep` occurs in `s` at `i`.
fn occurs_at(s: &Vec<char>, sep: &Vec<char>, i: usize) -> (r: bool)
    requires
        i <= s.len(),
    ensures
        r == (s@.len() - i >= sep@.len() && s@.skip(i as int).take(sep@.len() as int) == sep@),
{
    if s.len() - i < sep.len() {
        return false;
    }
    let mut k: usize = 0;
    while k < sep.len()
        invariant
            k <= sep.len(),
            i + sep.len() <= s.len(),
            forall|j: int| 0 <= j < k ==> s@[i + j] == sep@[j],
        decreases sep.len() - k,
    {
        if s[i + k] != sep[k] {
            assert(s@.skip(i as int).take(sep@.len() as int)[k as int] != sep@[k as int]);
            return false;
        }
        k += 1;
    }
    assert(s@.skip(i as int).take(sep@.len() as int) =~= sep@);
    true
}

/// Splits `s` at the occurrences of `sep`, from left to right, as `str::split`
/// does.
pub fn split_chars(s: &Vec<char>, sep: &Vec<char>) -> (r: Vec<Vec<char>>)
    requires
        sep.len() > 0,
    ensures
        chars_views(r@) == split_on(s@, sep@),
{
    let mut pieces: Vec<Vec<char>> = Vec::new();
    let mut start: usize = 0;
    let mut i: usize = 0;
    assert(s@.skip(0) =~= s@);
    assert(s@.subrange(0, 0) =~= Seq::<char>::empty());
    assert(chars_views(pieces@) + split_on(s@, sep@) =~= split_on(s@, sep@));
    while i < s.len()
        invariant
            start <= i <= s.len(),
            sep.len() > 0,
            split_on(s@, sep@) == chars_views(pieces@) + split_acc(
                s@.skip(i as int),
                sep@,
                s@.subrange(start as int, i as int),
            ),
        decreases s.len() - i,
    {
        let ghost rest = s@.skip(i as int);
        let ghost cur = s@.subrange(start as int, i as int);
        if occurs_at(s, sep, i) {
            let piece = sub_chars(s, start, i);
            let ghost before = pieces@;
            pieces.push(piece);
            proof {
                assert(rest.take(sep@.len() as int) == sep@);
                assert(rest.skip(sep@.len() as int) =~= s@.skip(i + sep@.len()));
                assert(s@.subrange(i + sep@.len(), i + sep@.len()) =~= Seq::<char>::empty());
                assert(chars_views(pieces@) =~= chars_views(before) + seq![cur]);
            }
            i = i + sep.len();
            start = i;
        } else {
            proof {
                assert(rest.skip(1) =~= s@.skip(i + 1));
                assert(cur.push(rest[0]) =~= s@.subrange(start as int, i + 1));
            }
            i = i + 1;
        }
    }
    let piece = sub_chars(s, start, i);
    let ghost before = pieces@;
    pieces.push(piece);
    proof {
        assert(s@.skip(i as int) =~= Seq::<char>::empty());
        assert(chars_views(pieces@) =~= chars_views(before) + seq![s@.subrange(start as int, i as int)]);
    }
    pieces
}

/// `s` without its leading characters with the White_Space property.
pub open spec fn trim_start(s: Seq<char>) -> Seq<char>
    decreases s.len(),
{
    if s.len() > 0 && white_space(s[0]) {
        trim_start(s.drop_first())
    } else {
        s
    }
}

/// `s` without its trailing characters with the White_Space property.
pub open spec fn trim_end(s: Seq<char>) -> Seq<char>
    decreases s.len(),
{
    if s.len() > 0 && white_space(s.last()) {
        trim_end(s.drop_last())
    } else {
        s
    }
}

/// `s` without its leading and trailing characters with the White_Space
/// property, as `str::trim` gives it.
pub open spec fn trim_spec(s: Seq<char>) -> Seq<char> {
    trim_end(trim_start(s))
}

/// `s` without its leading and trailing whitespace.
pub fn trim_chars(s: &Vec<char>) -> (r: Vec<char>)
    ensures
        r@ == trim_spec(s@),
{
    let mut a: usize = 0;
    assert(s@.skip(0) =~= s@);
    while a < s.len() && is_whitespace(s[a])
        invariant
            a <= s.len(),
            trim_start(s@) == trim_start(s@.skip(a as int)),
        decreases s.len() - a,
    {
        assert(s@.skip(a as int).drop_first() =~= s@.skip(a + 1));
        a += 1;
    }
    assert(trim_start(s@) == s@.skip(a as int));
    let mut b: usize = s.len();
    assert(s@.subrange(a as int, b as int) =~= s@.skip(a as int));
    while b > a && is_whitespace(s[b - 1])
        invariant
            a <= b <= s.len(),
            trim_spec(s@) == trim_end(s@.subrange(a as int, b as int)),
        decreases b,
    {
        assert(s@.subrange(a as int, b as int).drop_last() =~= s@.subrange(a as int, b - 1));
        b -= 1;
    }
    sub_chars(s, a, b)
}

/// `s` without its characters with the White_Space property.
pub open spec fn strip_ws(s: Seq<char>) -> Seq<char>
    decreases s.len(),
{
    if s.len() == 0 {
        s
    } else {
        strip_ws(s.drop_last()) + if white_space(s.last()) {
            seq![]
        } else {
            seq![s.last()]
        }
    }
}

/// `s` without its characters with the White_Space property.
pub fn strip_whitespace(s: &Vec<char>) -> (r: Vec<char>)
    ensures
        r@ == strip_ws(s@),
{
    let mut out: Vec<char> = Vec::new();
    let mut i: usize = 0;
    while i < s.len()
        invariant
            i <= s.len(),
            out@ == strip_ws(s@.take(i as int)),
        decreases s.len() - i,
    {
        let ghost before = out@;
        assert(s@.take(i + 1).drop_last() =~= s@.take(i as int));
        if !is_whitespace(s[i]) {
            out.push(s[i]);
        }
        assert(out@ =~= strip_ws(s@.take(i + 1)));
        i += 1;
    }
    assert(s@.take(s.len() as int) =~= s@);
    out
}

/// `s` with each `\n` (a backslash and an `n`), found from left to right,
/// removed.
pub open spec fn remove_escaped_newlines(s: Seq<char>) -> Seq<char>
    decreases s.len(),
{
    if s.len() == 0 {
        s
    } else if s.len() >= 2 && s[0] == '\\' && s[1] == 'n' {
        remove_escaped_newlines(s.skip(2))
    } else {
        seq![s[0]] + remove_escaped_newlines(s.skip(1))
    }
}

/// `s` with each `\n` (a backslash and an `n`) removed, as
/// `str::replace("\\n", "")` does.
pub fn remove_escaped_newline_chars(s: &Vec<char>) -> (r: Vec<char>)
    ensures
        r@ == remove_escaped_newlines(s@),
{
    let mut out: Vec<char> = Vec::new();
    let mut i: usize = 0;
    assert(s@.skip(0) =~= s@);
    assert(out@ + remove_escaped_newlines(s@) =~= remove_escaped_newlines(s@));
    while i < s.len()
        invariant
            i <= s.len(),
            remove_escaped_newlines(s@) == out@ + remove_escaped_newlines(s@.skip(i as int)),
        decreases s.len() - i,
    {
        let ghost rest = s@.skip(i as int);
        if i + 1 < s.len() && s[i] == '\\' && s[i + 1] == 'n' {
            assert(rest.skip(2) =~= s@.skip(i + 2));
            i += 2;
        } else {
            let ghost before = out@;
            out.push(s[i]);
            assert(rest.skip(1) =~= s@.skip(i + 1));
            assert(out@ + remove_escaped_newlines(s@.skip(i + 1)) =~= before + (seq![rest[0]]
                + remove_escaped_newlines(rest.skip(1))));
            i += 1;
        }
    }
    assert(s@.skip(i as int) =~= Seq::<char>::empty());
    assert(out@ + Seq::<char>::empty() =~= out@);
    out
}

/// Splitting gives at least one piece.
pub proof fn lemma_split_nonempty(s: Seq<char>, sep: Seq<char>, cur: Seq<char>)
    ensures
        split_acc(s, sep, cur).len() >= 1,
    decreases s.len(),
{
    if s.len() > 0 {
        if sep.len() > 0 && s.len() >= sep.len() && s.take(sep.len() as int) == sep {
            lemma_split_nonempty(s.skip(sep.len() as int), sep, seq![]);
        } else {
            lemma_split_nonempty(s.skip(1), sep, cur.push(s[0]));
        }
    }
}


/// `s` holds `p` at some position, as `str::contains` finds it.
pub open spec fn contains_seq(s: Seq<char>, p: Seq<char>) -> bool {
    exists|i: int| 0 <= i && i + p.len() <= s.len() && #[trigger] s.subrange(i, i + p.len()) == p
}

/// Whether `s` holds `p` at some position.
pub fn contains_chars(s: &Vec<char>, p: &Vec<char>) -> (r: bool)
    ensures
        r == contains_seq(s@, p@),
{
    if p.len() > s.len() {
        return false;
    }
    let last = s.len() - p.len();
    let mut i: usize = 0;
    while i < last
        invariant
            i <= last,
            last == s.len() - p.len(),
            forall|j: int| 0 <= j < i ==> #[trigger] s@.subrange(j, j + p@.len()) != p@,
        decreases last - i,
    {
        assert(s@.subrange(i as int, i + p@.len()) =~= s@.skip(i as int).take(p@.len() as int));
        if occurs_at(s, p, i) {
            return true;
        }
        i += 1;
    }
    assert(s@.subrange(last as int, last + p@.len()) =~= s@.skip(last as int).take(p@.len() as int));
    occurs_at(s, p, last)
}

/// `n` spaces.
pub open spec fn spaces(n: nat) -> Seq<char> {
    Seq::new(n, |i: int| ' ')
}

/// A line without the carriage return before its newline.
pub open spec fn strip_cr(l: Seq<char>) -> Seq<char> {
    if l.len() > 0 && l.last() == '\r' {
        l.drop_last()
    } else {
        l
    }
}

/// The lines of `s`, as `str::lines` gives them: the pieces between newlines,
/// each without the carriage return before its newline; a last piece that is
/// empty (after a final newline, or of an empty string) is no line.
pub open spec fn lines_of(s: Seq<char>) -> Seq<Seq<char>> {
    let p = split_on(s, seq!['\n']);
    let body = p.drop_last().map_values(|l: Seq<char>| strip_cr(l));
    if p.last().len() == 0 {
        body
    } else {
        body.push(p.last())
    }
}

/// Each line of `s` after `n` spaces, joined by newlines.
pub open spec fn indent_spec(s: Seq<char>, n: nat) -> Seq<char> {
    seq_join(lines_of(s).map_values(|l: Seq<char>| spaces(n) + l), "\n"@)
}

/// Indents every line in the string.
pub fn indent(str: String, depth: usize) -> (r: String)
    ensures
        r@ == indent_spec(str@, depth as nat),
{
    let mut pad = String::new();
    let mut k: usize = 0;
    while k < depth
        invariant
            k <= depth,
            pad@ == spaces(k as nat),
        decreases depth - k,
    {
        pad.append(" ");
        proof {
            reveal_strlit(" ");
        }
        assert(pad@ =~= spaces((k + 1) as nat));
        k += 1;
    }
    let chars = chars_of(str.as_str());
    let mut nl: Vec<char> = Vec::new();
    nl.push('\n');
    let pieces = split_chars(&chars, &nl);
    let ghost pv = chars_views(pieces@);
    proof {
        assert(nl@ =~= seq!['\n']);
        lemma_split_nonempty(chars@, nl@, seq![]);
    }
    let n = pieces.len();
    let mut lines: Vec<String> = Vec::new();
    let mut i: usize = 0;
    while i + 1 < n
        invariant
            n == pieces.len(),
            n >= 1,
            i + 1 <= n,
            pv == chars_views(pieces@),
            pad@ == spaces(depth as nat),
            lines@.map_values(|x: String| x@) == pv.take(i as int).map_values(|l: Seq<char>| strip_cr(l)).map_values(
                |l: Seq<char>| spaces(depth as nat) + l,
            ),
        decreases n - i,
    {
        let piece = &pieces[i];
        let mut end = piece.len();
        if end > 0 && piece[end - 1] == '\r' {
            end -= 1;
        }
        let body = sub_chars(piece, 0, end);
        let mut line = pad.clone();
        line.append(string_from_chars(&body).as_str());
        let ghost before = lines@;
        lines.push(line);
        proof {
            assert(body@ == strip_cr(pv[i as int])) by {
                if piece@.len() > 0 && piece@.last() == '\r' {
                    assert(body@ =~= piece@.drop_last());
                } else {
                    assert(body@ =~= piece@);
                }
            }
            assert(lines@.map_values(|x: String| x@) =~= before.map_values(|x: String| x@).push(spaces(depth as nat) + strip_cr(pv[i as int])));
            assert(pv.take(i + 1) =~= pv.take(i as int).push(pv[i as int]));
        }
        i += 1;
    }
    let last = &pieces[n - 1];
    if last.len() > 0 {
        let mut line = pad.clone();
        line.append(string_from_chars(last).as_str());
        let ghost before = lines@;
        lines.push(line);
        assert(lines@.map_values(|x: String| x@) =~= before.map_values(|x: String| x@).push(spaces(depth as nat) + pv[n - 1]));
    }
    proof {
        assert(pv.take(n - 1) =~= pv.drop_last());
        let p = split_on(str@, seq!['\n']);
        assert(pv == p);
        let body = p.drop_last().map_values(|l: Seq<char>| strip_cr(l));
        if p.last().len() == 0 {
            assert(lines@.map_values(|x: String| x@) =~= body.map_values(|l: Seq<char>| spaces(depth as nat) + l));
        } else {
            assert(lines@.map_values(|x: String| x@) =~= body.push(p.last()).map_values(
                |l: Seq<char>| spaces(depth as nat) + l,
            ));
        }
    }
    let r = join_strings(&lines, "\n");
    r
}

} // verus!
