//! Text rules of the board: whitespace trimming, tag cleaning, slugs and
//! decimal numbers, each stated over `Seq<char>`.
use vstd::prelude::*;

verus! {

// ---------------------------------------------------------------------------
// Character classes
// ---------------------------------------------------------------------------

/// The Unicode `White_Space` property, the set of characters that `str::trim`
/// removes from both ends of a string.
pub open spec fn is_white_space(c: char) -> bool {
    let u = c as u32;
    ||| 0x09 <= u <= 0x0d
    ||| u == 0x20
    ||| u == 0x85
    ||| u == 0xa0
    ||| u == 0x1680
    ||| 0x2000 <= u <= 0x200a
    ||| u == 0x2028
    ||| u == 0x2029
    ||| u == 0x202f
    ||| u == 0x205f
    ||| u == 0x3000
}

/// `0-9`, `a-z` or `A-Z`.
pub open spec fn is_ascii_alnum(c: char) -> bool {
    ||| '0' <= c <= '9'
    ||| 'a' <= c <= 'z'
    ||| 'A' <= c <= 'Z'
}

/// ASCII lower-casing: `A-Z` move to `a-z`, everything else stays.
pub open spec fn ascii_lower(c: char) -> char {
    if 'A' <= c <= 'Z' {
        (c as u32 + 32) as char
    } else {
        c
    }
}

/// The character that a slug keeps for `c`: its lower-case form for an ASCII
/// letter or digit, a separator `-` for anything else.
pub open spec fn slug_char(c: char) -> char {
    if is_ascii_alnum(c) {
        ascii_lower(c)
    } else {
        '-'
    }
}

pub fn white_space(c: char) -> (r: bool)
    ensures
        r == is_white_space(c),
{
    let u = c as u32;
    (0x09 <= u && u <= 0x0d) || u == 0x20 || u == 0x85 || u == 0xa0 || u == 0x1680 || (0x2000
        <= u && u <= 0x200a) || u == 0x2028 || u == 0x2029 || u == 0x202f || u == 0x205f || u
        == 0x3000
}

pub fn ascii_alnum(c: char) -> (r: bool)
    ensures
        r == is_ascii_alnum(c),
{
    ('0' <= c && c <= '9') || ('a' <= c && c <= 'z') || ('A' <= c && c <= 'Z')
}

pub fn lower_ascii(c: char) -> (r: char)
    ensures
        r == ascii_lower(c),
{
    if 'A' <= c && c <= 'Z' {
        ((c as u8) + 32) as char
    } else {
        c
    }
}

// ---------------------------------------------------------------------------
// Building strings
// ---------------------------------------------------------------------------

/// Calls `String::push`, which std documents as appending `c` to the end of
/// `s`; the contract states exactly that and is taken on trust.
#[verifier::external_body]
pub(crate) fn push_char(s: &mut String, c: char)
    ensures
        final(s)@ == old(s)@.push(c),
{
    s.push(c);
}

/// An owned copy of a string slice.
pub fn owned(s: &str) -> (r: String)
    ensures
        r@ == s@,
{
    s.to_string()
}

/// Whether two strings hold the same characters.
pub fn text_eq(a: &str, b: &str) -> (r: bool)
    ensures
        r == (a@ == b@),
{
    let n = a.unicode_len();
    if n != b.unicode_len() {
        return false;
    }
    let mut i: usize = 0;
    while i < n
        invariant
            n == a@.len(),
            n == b@.len(),
            i <= n,
            forall|k: int| 0 <= k < i ==> a@[k] == b@[k],
        decreases n - i,
    {
        if a.get_char(i) != b.get_char(i) {
            return false;
        }
        i = i + 1;
    }
    assert(a@ =~= b@);
    true
}

// ---------------------------------------------------------------------------
// Trimming
// ---------------------------------------------------------------------------

/// `s` without its leading white space.
pub open spec fn trim_start_spec(s: Seq<char>) -> Seq<char>
    decreases s.len(),
{
    if s.len() > 0 && is_white_space(s[0]) {
        trim_start_spec(s.subrange(1, s.len() as int))
    } else {
        s
    }
}

/// `s` without its trailing white space.
pub open spec fn trim_end_spec(s: Seq<char>) -> Seq<char>
    decreases s.len(),
{
    if s.len() > 0 && is_white_space(s.last()) {
        trim_end_spec(s.drop_last())
    } else {
        s
    }
}

/// `s` without white space at either end, as `str::trim` leaves it.
pub open spec fn trim_spec(s: Seq<char>) -> Seq<char> {
    trim_end_spec(trim_start_spec(s))
}

proof fn lemma_trim_start_step(s: Seq<char>, i: int)
    requires
        0 <= i < s.len(),
        is_white_space(s[i]),
    ensures
        trim_start_spec(s.subrange(i, s.len() as int)) == trim_start_spec(
            s.subrange(i + 1, s.len() as int),
        ),
{
    let t = s.subrange(i, s.len() as int);
    assert(t.subrange(1, t.len() as int) =~= s.subrange(i + 1, s.len() as int));
}

proof fn lemma_trim_end_step(s: Seq<char>, j: int)
    requires
        0 < j <= s.len(),
        is_white_space(s[j - 1]),
    ensures
        trim_end_spec(s.subrange(0, j)) == trim_end_spec(s.subrange(0, j - 1)),
{
    assert(s.subrange(0, j).drop_last() =~= s.subrange(0, j - 1));
}

/// The characters of `s` without white space at either end (`str::trim`).
pub fn trim_text(s: &str) -> (r: String)
    ensures
        r@ == trim_spec(s@),
{
    let n = s.unicode_len();
    let mut i: usize = 0;
    assert(s@.subrange(0, n as int) =~= s@);
    while i < n && white_space(s.get_char(i))
        invariant
            n == s@.len(),
            i <= n,
            trim_start_spec(s@) == trim_start_spec(s@.subrange(i as int, n as int)),
        decreases n - i,
    {
        proof {
            lemma_trim_start_step(s@, i as int);
        }
        i = i + 1;
    }
    let ghost rest = s@.subrange(i as int, n as int);
    assert(trim_start_spec(s@) == rest) by {
        if rest.len() > 0 {
            assert(rest[0] == s@[i as int]);
        }
    }
    let mut j: usize = n;
    while j > i && white_space(s.get_char(j - 1))
        invariant
            n == s@.len(),
            i <= j <= n,
            rest == s@.subrange(i as int, n as int),
            trim_end_spec(rest) == trim_end_spec(s@.subrange(i as int, j as int)),
        decreases j - i,
    {
        proof {
            let t = s@.subrange(i as int, j as int);
            lemma_trim_end_step(rest, (j - i) as int);
            assert(rest.subrange(0, (j - i) as int) =~= t);
            assert(rest.subrange(0, (j - i - 1) as int) =~= s@.subrange(i as int, j - 1));
        }
        j = j - 1;
    }
    let ghost kept = s@.subrange(i as int, j as int);
    assert(trim_end_spec(kept) == kept) by {
        if kept.len() > 0 {
            assert(kept.last() == s@[j - 1]);
        }
    }
    owned(s.substring_char(i, j))
}

/// Whether `s` holds nothing but white space.
pub fn is_blank(s: &str) -> (r: bool)
    ensures
        r == (trim_spec(s@).len() == 0),
{
    let t = trim_text(s);
    t.as_str().unicode_len() == 0
}

// ---------------------------------------------------------------------------
// Tags
// ---------------------------------------------------------------------------

/// The trimmed form of a tag, or nothing where the tag is blank.
pub open spec fn clean_tag(t: Seq<char>) -> Option<Seq<char>> {
    let x = trim_spec(t);
    if x.len() > 0 {
        Some(x)
    } else {
        None
    }
}

/// Each tag trimmed, blank tags dropped, the order kept.
pub open spec fn clean_tags_spec(tags: Seq<Seq<char>>) -> Seq<Seq<char>> {
    tags.filter_map(|t: Seq<char>| clean_tag(t))
}

/// Trims every tag and drops those that are left empty, keeping the order.
pub fn clean_tags(tags: Vec<String>) -> (r: Vec<String>)
    ensures
        r.deep_view() == clean_tags_spec(tags.deep_view()),
{
    let mut r: Vec<String> = Vec::new();
    let n = tags.len();
    let mut i: usize = 0;
    while i < n
        invariant
            n == tags.len(),
            i <= n,
            r.deep_view() == clean_tags_spec(tags.deep_view().subrange(0, i as int)),
        decreases n - i,
    {
        let t = trim_text(tags[i].as_str());
        let ghost before = tags.deep_view().subrange(0, i as int);
        let ghost after = tags.deep_view().subrange(0, i + 1);
        proof {
            assert(after.drop_last() =~= before);
            assert(after.last() == tags[i as int]@);
        }
        if t.as_str().unicode_len() > 0 {
            let ghost old_r = r.deep_view();
            r.push(t);
            proof {
                assert(r.deep_view() =~= old_r + seq![trim_spec(tags[i as int]@)]);
            }
        }
        i = i + 1;
    }
    assert(tags.deep_view().subrange(0, n as int) =~= tags.deep_view());
    r
}

// ---------------------------------------------------------------------------
// Slugs
// ---------------------------------------------------------------------------

/// The words of `m`: its maximal runs of characters other than `-`, in order.
/// This is what splitting `m` at every `-` and dropping the empty parts leaves.
pub open spec fn slug_words(m: Seq<char>) -> Seq<Seq<char>>
    decreases m.len(),
{
    if m.len() == 0 {
        Seq::empty()
    } else {
        let w = slug_words(m.drop_last());
        if m.last() == '-' {
            w
        } else if m.len() >= 2 && m[m.len() - 2] != '-' {
            w.drop_last().push(w.last().push(m.last()))
        } else {
            w.push(seq![m.last()])
        }
    }
}

/// The words joined with `-` between them.
pub open spec fn join_words(ws: Seq<Seq<char>>) -> Seq<char>
    decreases ws.len(),
{
    if ws.len() == 0 {
        Seq::empty()
    } else if ws.len() == 1 {
        ws[0]
    } else {
        join_words(ws.drop_last()) + seq!['-'] + ws.last()
    }
}

/// Every character of `s` mapped by `slug_char`.
pub open spec fn slug_map(s: Seq<char>) -> Seq<char> {
    s.map_values(|c: char| slug_char(c))
}

/// The slug of `s`: every character mapped by `slug_char`, the result split at
/// `-`, the empty parts dropped and the rest joined with `-`.
pub open spec fn slugify_spec(s: Seq<char>) -> Seq<char> {
    join_words(slug_words(slug_map(s)))
}

pub proof fn lemma_slug_words_shape(m: Seq<char>)
    ensures
        forall|k: int| 0 <= k < slug_words(m).len() ==> #[trigger] slug_words(m)[k].len() > 0,
        forall|k: int, j: int|
            0 <= k < slug_words(m).len() && 0 <= j < slug_words(m)[k].len() ==> #[trigger] slug_words(
                m,
            )[k][j] != '-',
        m.len() > 0 && m.last() != '-' ==> slug_words(m).len() > 0,
    decreases m.len(),
{
    if m.len() > 0 {
        lemma_slug_words_shape(m.drop_last());
        let w = slug_words(m.drop_last());
        if m.last() != '-' && m.len() >= 2 && m[m.len() - 2] != '-' {
            assert(m.drop_last().last() == m[m.len() - 2]);
            let nw = w.drop_last().push(w.last().push(m.last()));
            assert forall|k: int, j: int|
                0 <= k < nw.len() && 0 <= j < nw[k].len() implies nw[k][j] != '-' by {
                if k < nw.len() - 1 {
                    assert(nw[k] == w[k]);
                } else {
                    assert(nw[k] == w.last().push(m.last()));
                    if j < w.last().len() {
                        assert(nw[k][j] == w[w.len() - 1][j]);
                    }
                }
            }
            assert forall|k: int| 0 <= k < nw.len() implies nw[k].len() > 0 by {
                if k < nw.len() - 1 {
                    assert(nw[k] == w[k]);
                }
            }
        } else if m.last() != '-' {
            let nw = w.push(seq![m.last()]);
            assert forall|k: int, j: int|
                0 <= k < nw.len() && 0 <= j < nw[k].len() implies nw[k][j] != '-' by {
                if k < nw.len() - 1 {
                    assert(nw[k] == w[k]);
                }
            }
            assert forall|k: int| 0 <= k < nw.len() implies nw[k].len() > 0 by {
                if k < nw.len() - 1 {
                    assert(nw[k] == w[k]);
                }
            }
        }
    }
}

pub proof fn lemma_join_words_empty(ws: Seq<Seq<char>>)
    requires
        forall|k: int| 0 <= k < ws.len() ==> #[trigger] ws[k].len() > 0,
    ensures
        join_words(ws).len() == 0 <==> ws.len() == 0,
{
    if ws.len() == 1 {
        assert(ws[0].len() > 0);
    }
}

pub proof fn lemma_join_words_extend_last(ws: Seq<Seq<char>>, c: char)
    requires
        ws.len() > 0,
    ensures
        join_words(ws.drop_last().push(ws.last().push(c))) == join_words(ws).push(c),
{
    let nw = ws.drop_last().push(ws.last().push(c));
    if ws.len() == 1 {
        assert(nw.len() == 1);
        assert(nw[0] == ws[0].push(c));
    } else {
        assert(nw.drop_last() =~= ws.drop_last());
        assert(join_words(nw) =~= join_words(ws).push(c));
    }
}

pub proof fn lemma_join_words_push(ws: Seq<Seq<char>>, w: Seq<char>)
    ensures
        join_words(ws.push(w)) == if ws.len() == 0 {
            w
        } else {
            join_words(ws) + seq!['-'] + w
        },
{
    assert(ws.push(w).drop_last() =~= ws);
}

/// The slug of a name: ASCII letters and digits lower-cased, every other run
/// of characters turned into one `-`, and no `-` at either end.
pub fn slugify(value: &str) -> (r: String)
    ensures
        r@ == slugify_spec(value@),
{
    let n = value.unicode_len();
    let mut out = String::new();
    let mut pending = false;
    let mut i: usize = 0;
    while i < n
        invariant
            n == value@.len(),
            i <= n,
            out@ == join_words(slug_words(slug_map(value@.subrange(0, i as int)))),
            pending == (i > 0 && slug_map(value@.subrange(0, i as int)).last() == '-'),
        decreases n - i,
    {
        let ghost p = slug_map(value@.subrange(0, i as int));
        let ghost p2 = slug_map(value@.subrange(0, i + 1));
        let c = value.get_char(i);
        proof {
            assert forall|k: int| 0 <= k < p2.len() implies p2[k] == p.push(slug_char(c))[k] by {
                if k < i {
                    assert(p2[k] == slug_char(value@[k]));
                    assert(p[k] == slug_char(value@[k]));
                }
            }
            assert(p2 =~= p.push(slug_char(c)));
            assert(p2.drop_last() =~= p);
            lemma_slug_words_shape(p);
        }
        if ascii_alnum(c) {
            let lc = lower_ascii(c);
            proof {
                assert('a' <= lc <= 'z' || '0' <= lc <= '9');
                assert(lc != '-');
            }
            if pending || i == 0 {
                proof {
                    lemma_join_words_push(slug_words(p), seq![lc]);
                    lemma_join_words_empty(slug_words(p));
                    assert(slug_words(p2) == slug_words(p).push(seq![lc]));
                }
                if out.as_str().unicode_len() > 0 {
                    push_char(&mut out, '-');
                }
                push_char(&mut out, lc);
                proof {
                    assert(seq![lc] =~= Seq::<char>::empty().push(lc));
                    if slug_words(p).len() > 0 {
                        assert(out@ =~= join_words(slug_words(p)) + seq!['-'] + seq![lc]);
                    } else {
                        assert(out@ =~= seq![lc]);
                    }
                }
            } else {
                proof {
                    assert(p.last() != '-');
                    assert(p2[p2.len() - 2] == p.last());
                    assert(slug_words(p).len() > 0);
                    lemma_join_words_extend_last(slug_words(p), lc);
                }
                push_char(&mut out, lc);
            }
            pending = false;
        } else {
            pending = true;
        }
        i = i + 1;
    }
    assert(value@.subrange(0, n as int) =~= value@);
    out
}

// ---------------------------------------------------------------------------
// Decimal numbers
// ---------------------------------------------------------------------------

/// The digit character for `d < 10`.
pub open spec fn digit_char(d: nat) -> char {
    (d + 48) as char
}

/// The decimal form of `n`, without leading zeros.
pub open spec fn decimal_spec(n: nat) -> Seq<char>
    decreases n,
{
    if n < 10 {
        seq![digit_char(n)]
    } else {
        decimal_spec(n / 10).push(digit_char(n % 10))
    }
}

proof fn lemma_digit_char_injective(a: nat, b: nat)
    requires
        a < 10,
        b < 10,
        digit_char(a) == digit_char(b),
    ensures
        a == b,
{
    assert(digit_char(a) as u32 == a + 48);
    assert(digit_char(b) as u32 == b + 48);
}

pub proof fn lemma_decimal_len(n: nat)
    ensures
        decimal_spec(n).len() >= 1,
        n >= 10 ==> decimal_spec(n).len() >= 2,
    decreases n,
{
    if n >= 10 {
        lemma_decimal_len(n / 10);
    }
}

/// Two numbers with the same decimal form are the same number.
pub proof fn lemma_decimal_injective(a: nat, b: nat)
    requires
        decimal_spec(a) == decimal_spec(b),
    ensures
        a == b,
    decreases a,
{
    lemma_decimal_len(a);
    lemma_decimal_len(b);
    if a < 10 && b < 10 {
        assert(decimal_spec(a) == seq![digit_char(a)]);
        assert(decimal_spec(b) == seq![digit_char(b)]);
        assert(seq![digit_char(a)][0] == digit_char(a));
        assert(seq![digit_char(b)][0] == digit_char(b));
        assert(decimal_spec(a)[0] == decimal_spec(b)[0]);
        lemma_digit_char_injective(a, b);
    } else if a >= 10 && b >= 10 {
        let da = decimal_spec(a);
        let db = decimal_spec(b);
        assert(da.last() == db.last());
        lemma_digit_char_injective(a % 10, b % 10);
        assert(da.drop_last() =~= decimal_spec(a / 10));
        assert(db.drop_last() =~= decimal_spec(b / 10));
        lemma_decimal_injective(a / 10, b / 10);
    }
}

/// Appends the decimal form of `n`.
pub fn push_decimal(s: &mut String, n: u128)
    ensures
        final(s)@ == old(s)@ + decimal_spec(n as nat),
    decreases n,
{
    if n >= 10 {
        push_decimal(s, n / 10);
    }
    let d = (n % 10) as u8;
    let c = (d + 48) as char;
    push_char(s, c);
    proof {
        if n >= 10 {
            assert(decimal_spec(n as nat) == decimal_spec((n / 10) as nat).push(c));
        } else {
            assert(decimal_spec(n as nat) =~= seq![c]);
        }
    }
}

} // verus!
