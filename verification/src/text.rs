//! Character and string helpers the rest of the library is specified with:
//! Unicode whitespace, trimming, blank checks and decimal rendering.

use vstd::prelude::*;
use vstd::multiset::Multiset;
use vstd::string::*;

verus! {

/// Unicode `White_Space`, the property `char::is_whitespace` is documented
/// to test.
pub open spec fn is_space(c: char) -> bool {
    let n = c as u32;
    ||| 0x9 <= n <= 0xD
    ||| n == 0x20
    ||| n == 0x85
    ||| n == 0xA0
    ||| n == 0x1680
    ||| 0x2000 <= n <= 0x200A
    ||| n == 0x2028
    ||| n == 0x2029
    ||| n == 0x202F
    ||| n == 0x205F
    ||| n == 0x3000
}

/// Every character of `s` is whitespace, which is what `s.trim() == ""` says.
pub open spec fn all_space(s: Seq<char>) -> bool {
    forall|i: int| 0 <= i < s.len() ==> is_space(#[trigger] s[i])
}

/// `s` with its leading whitespace removed.
pub open spec fn trim_start(s: Seq<char>) -> Seq<char>
    decreases s.len(),
{
    if s.len() > 0 && is_space(s[0]) {
        trim_start(s.drop_first())
    } else {
        s
    }
}

/// `s` with its trailing whitespace removed.
pub open spec fn trim_end(s: Seq<char>) -> Seq<char>
    decreases s.len(),
{
    if s.len() > 0 && is_space(s.last()) {
        trim_end(s.drop_last())
    } else {
        s
    }
}

/// `s` with whitespace removed from both ends, as `str::trim` does.
pub open spec fn trimmed(s: Seq<char>) -> Seq<char> {
    trim_end(trim_start(s))
}

/// The character for a decimal digit.
pub open spec fn digit_char(d: nat) -> char {
    ((48 + d) as u8) as char
}

/// The decimal rendering of `n`, without leading zeros.
pub open spec fn decimal(n: nat) -> Seq<char>
    decreases n,
{
    if n < 10 {
        seq![digit_char(n)]
    } else {
        decimal(n / 10).push(digit_char(n % 10))
    }
}

pub fn is_whitespace(c: char) -> (r: bool)
    ensures
        r == is_space(c),
{
    let n = c as u32;
    (0x9 <= n && n <= 0xD) || n == 0x20 || n == 0x85 || n == 0xA0 || n == 0x1680 || (0x2000
        <= n && n <= 0x200A) || n == 0x2028 || n == 0x2029 || n == 0x202F || n == 0x205F || n
        == 0x3000
}

/// The characters of `s`, in order.
pub fn chars_of(s: &str) -> (v: Vec<char>)
    ensures
        v@ == s@,
{
    let mut v: Vec<char> = Vec::new();
    for c in it: s.chars()
        invariant
            v@ == it.seq().take(it.index() as int),
    {
        v.push(c);
    }
    v
}

/// Appends one character to a string.
#[verifier::external_body]
pub(crate) fn push_char(s: &mut String, c: char)
    ensures
        final(s)@ == old(s)@.push(c),
{
    s.push(c);
}

/// A string holding exactly the characters `v[from..to]`.
pub fn string_from_chars(v: &[char], from: usize, to: usize) -> (s: String)
    requires
        from <= to <= v@.len(),
    ensures
        s@ == v@.subrange(from as int, to as int),
{
    let mut s = String::new();
    let mut i = from;
    while i < to
        invariant
            from <= i <= to <= v@.len(),
            s@ == v@.subrange(from as int, i as int),
        decreases to - i,
    {
        push_char(&mut s, v[i]);
        assert(v@.subrange(from as int, i + 1) == v@.subrange(from as int, i as int).push(v@[i as int]));
        i += 1;
    }
    s
}

/// Whether `s` holds nothing but whitespace: `s.trim() == ""`.
pub fn is_blank(s: &str) -> (r: bool)
    ensures
        r == all_space(s@),
{
    let v = chars_of(s);
    let mut i: usize = 0;
    while i < v.len()
        invariant
            0 <= i <= v@.len(),
            v@ == s@,
            forall|j: int| 0 <= j < i ==> is_space(#[trigger] v@[j]),
        decreases v.len() - i,
    {
        if !is_whitespace(v[i]) {
            return false;
        }
        i += 1;
    }
    true
}

proof fn lemma_trim_start_skip(s: Seq<char>, i: int)
    requires
        0 <= i < s.len(),
        is_space(s[i]),
    ensures
        trim_start(s.skip(i)) == trim_start(s.skip(i + 1)),
{
    assert(s.skip(i).drop_first() =~= s.skip(i + 1));
}

proof fn lemma_trim_end_take(s: Seq<char>, j: int)
    requires
        0 < j <= s.len(),
        is_space(s[j - 1]),
    ensures
        trim_end(s.take(j)) == trim_end(s.take(j - 1)),
{
    assert(s.take(j).drop_last() =~= s.take(j - 1));
}

/// The bounds `[start, end)` of `v` once surrounding whitespace is dropped.
pub fn trim_bounds(v: &[char]) -> (r: (usize, usize))
    ensures
        r.0 <= r.1 <= v@.len(),
        v@.subrange(r.0 as int, r.1 as int) == trimmed(v@),
{
    let mut i: usize = 0;
    assert(v@.skip(0) =~= v@);
    while i < v.len() && is_whitespace(v[i])
        invariant
            0 <= i <= v@.len(),
            trim_start(v@) == trim_start(v@.skip(i as int)),
        decreases v.len() - i,
    {
        proof {
            lemma_trim_start_skip(v@, i as int);
        }
        i += 1;
    }
    let ghost rest = v@.skip(i as int);
    assert(trim_start(v@) == rest) by {
        if rest.len() > 0 {
            assert(rest[0] == v@[i as int]);
        }
    }
    let mut j: usize = v.len();
    assert(rest.take(rest.len() as int) =~= rest);
    while j > i && is_whitespace(v[j - 1])
        invariant
            i <= j <= v@.len(),
            rest == v@.skip(i as int),
            trim_end(rest) == trim_end(rest.take(j - i)),
        decreases j,
    {
        proof {
            assert(rest[j - i - 1] == v@[j - 1]);
            lemma_trim_end_take(rest, j - i);
        }
        j -= 1;
    }
    assert(trim_end(rest.take(j - i)) == rest.take(j - i)) by {
        if j > i {
            assert(rest.take(j - i).last() == v@[j - 1]);
        }
    }
    assert(v@.subrange(i as int, j as int) =~= rest.take(j - i));
    (i, j)
}

proof fn lemma_trim_start_blank(s: Seq<char>)
    ensures
        (trim_start(s).len() == 0) <==> all_space(s),
        trim_start(s).len() > 0 ==> !is_space(trim_start(s)[0]),
    decreases s.len(),
{
    if s.len() > 0 && is_space(s[0]) {
        lemma_trim_start_blank(s.drop_first());
        if all_space(s.drop_first()) {
            assert forall|i: int| 0 <= i < s.len() implies is_space(#[trigger] s[i]) by {
                if i > 0 {
                    assert(s[i] == s.drop_first()[i - 1]);
                }
            }
        }
        if all_space(s) {
            assert forall|i: int| 0 <= i < s.drop_first().len() implies is_space(
                #[trigger] s.drop_first()[i],
            ) by {
                assert(s.drop_first()[i] == s[i + 1]);
            }
        }
    } else if s.len() > 0 {
        assert(!is_space(s[0]));
    }
}

proof fn lemma_trim_end_keeps_first(s: Seq<char>)
    requires
        s.len() > 0,
        !is_space(s[0]),
    ensures
        trim_end(s).len() > 0,
    decreases s.len(),
{
    if is_space(s.last()) {
        assert(s.len() > 1);
        assert(s.drop_last()[0] == s[0]);
        lemma_trim_end_keeps_first(s.drop_last());
    }
}

/// Trimming leaves nothing exactly when there was nothing but whitespace.
pub proof fn lemma_trimmed_empty_iff_blank(s: Seq<char>)
    ensures
        (trimmed(s).len() == 0) <==> all_space(s),
{
    lemma_trim_start_blank(s);
    if trim_start(s).len() > 0 {
        lemma_trim_end_keeps_first(trim_start(s));
    }
}

/// `s` with whitespace removed from both ends.
pub fn trim(s: &str) -> (r: String)
    ensures
        r@ == trimmed(s@),
{
    let v = chars_of(s);
    let (start, end) = trim_bounds(v.as_slice());
    string_from_chars(v.as_slice(), start, end)
}

/// `n` written out in decimal.
pub fn decimal_string(n: u64) -> (s: String)
    ensures
        s@ == decimal(n as nat),
    decreases n,
{
    if n < 10 {
        let mut s = String::new();
        push_char(&mut s, ((48 + n) as u8) as char);
        assert(s@ =~= seq![digit_char(n as nat)]);
        s
    } else {
        let mut s = decimal_string(n / 10);
        push_char(&mut s, ((48 + n % 10) as u8) as char);
        s
    }
}

/// `name` joined onto the directory `dir`, as `Path::join` joins a relative
/// name: nothing is added after an empty directory or one that already ends
/// in a separator.
pub open spec fn path_join(dir: Seq<char>, name: Seq<char>) -> Seq<char> {
    if dir.len() == 0 {
        name
    } else if dir.last() == '/' {
        dir + name
    } else {
        dir + seq!['/'] + name
    }
}

pub fn join_path(dir: &str, name: &str) -> (r: String)
    ensures
        r@ == path_join(dir@, name@),
{
    let v = chars_of(dir);
    let mut r = dir.to_owned();
    if v.len() == 0 {
        return name.to_owned();
    }
    if v[v.len() - 1] != '/' {
        push_char(&mut r, '/');
    }
    r.append(name);
    r
}

/// The decimal rendering of a signed `n`, with a leading '-' when negative.
pub open spec fn signed_decimal(n: int) -> Seq<char> {
    if n < 0 {
        seq!['-'] + decimal((-n) as nat)
    } else {
        decimal(n as nat)
    }
}

/// `n` written out in decimal, signed.
pub fn signed_decimal_string(n: i32) -> (s: String)
    ensures
        s@ == signed_decimal(n as int),
{
    if n < 0 {
        let magnitude: u64 = (-(n as i64)) as u64;
        let digits = decimal_string(magnitude);
        let mut s = String::new();
        push_char(&mut s, '-');
        s.append(digits.as_str());
        assert(s@ =~= seq!['-'] + decimal((-(n as int)) as nat));
        s
    } else {
        decimal_string(n as u64)
    }
}

/// The texts of a sequence of strings.
pub open spec fn strings_view(v: Seq<String>) -> Seq<Seq<char>> {
    v.map_values(|n: String| n@)
}

pub proof fn lemma_strings_view_push(s: Seq<String>, x: String)
    ensures
        strings_view(s.push(x)) == strings_view(s).push(x@),
{
    assert(strings_view(s.push(x)) =~= strings_view(s).push(x@));
}

/// A copy of `v`, string for string.
pub fn duplicate_strings(v: &[String]) -> (r: Vec<String>)
    ensures
        strings_view(r@) == strings_view(v@),
{
    let mut r: Vec<String> = Vec::new();
    for i in 0..v.len()
        invariant
            strings_view(r@) == strings_view(v@).take(i as int),
    {
        let ghost before = r@;
        let s = v[i].clone();
        proof {
            lemma_strings_view_push(before, s);
        }
        r.push(s);
        assert(strings_view(r@) =~= strings_view(v@).take(i + 1));
    }
    assert(strings_view(v@).take(v@.len() as int) =~= strings_view(v@));
    r
}

/// Whether `a` and `b` hold the same characters.
pub fn str_eq(a: &str, b: &str) -> (r: bool)
    ensures
        r == (a@ == b@),
{
    let x = chars_of(a);
    let y = chars_of(b);
    if x.len() != y.len() {
        return false;
    }
    let mut i: usize = 0;
    while i < x.len()
        invariant
            0 <= i <= x@.len(),
            x@.len() == y@.len(),
            x@ == a@,
            y@ == b@,
            forall|j: int| 0 <= j < i ==> x@[j] == y@[j],
        decreases x.len() - i,
    {
        if x[i] != y[i] {
            return false;
        }
        i += 1;
    }
    assert(x@ =~= y@);
    true
}

/// `a` sorts before `b`, comparing character by character, as `String`'s
/// `Ord` does (utf-8 byte order and code point order agree).
pub open spec fn seq_less(a: Seq<char>, b: Seq<char>) -> bool
    decreases a.len(),
{
    if a.len() == 0 {
        b.len() > 0
    } else if b.len() == 0 {
        false
    } else if a[0] != b[0] {
        a[0] < b[0]
    } else {
        seq_less(a.drop_first(), b.drop_first())
    }
}

pub proof fn lemma_seq_less_irreflexive(a: Seq<char>)
    ensures
        !seq_less(a, a),
    decreases a.len(),
{
    if a.len() > 0 {
        lemma_seq_less_irreflexive(a.drop_first());
    }
}

/// Any two different texts are ordered one way or the other.
pub proof fn lemma_seq_less_total(a: Seq<char>, b: Seq<char>)
    ensures
        a != b ==> seq_less(a, b) || seq_less(b, a),
        !(seq_less(a, b) && seq_less(b, a)),
    decreases a.len(),
{
    if a.len() > 0 && b.len() > 0 {
        lemma_seq_less_total(a.drop_first(), b.drop_first());
        if a[0] == b[0] && a.drop_first() == b.drop_first() {
            assert forall|i: int| 0 <= i < a.len() implies a[i] == b[i] by {
                if i > 0 {
                    assert(a[i] == a.drop_first()[i - 1]);
                    assert(b[i] == b.drop_first()[i - 1]);
                }
            }
            assert(a.len() == b.len());
            assert(a =~= b);
        }
    } else if a.len() == 0 && b.len() == 0 {
        assert(a =~= b);
    }
}

pub proof fn lemma_seq_less_transitive(a: Seq<char>, b: Seq<char>, c: Seq<char>)
    requires
        seq_less(a, b),
        seq_less(b, c),
    ensures
        seq_less(a, c),
    decreases a.len(),
{
    if a.len() > 0 && b.len() > 0 && c.len() > 0 {
        if a[0] == b[0] && b[0] == c[0] {
            lemma_seq_less_transitive(a.drop_first(), b.drop_first(), c.drop_first());
        }
    }
}

/// Whether `a` sorts before `b`.
pub fn str_less(a: &str, b: &str) -> (r: bool)
    ensures
        r == seq_less(a@, b@),
{
    let x = chars_of(a);
    let y = chars_of(b);
    let mut i: usize = 0;
    assert(x@.skip(0) =~= x@);
    assert(y@.skip(0) =~= y@);
    while i < x.len() && i < y.len() && x[i] == y[i]
        invariant
            0 <= i <= x@.len(),
            i <= y@.len(),
            x@ == a@,
            y@ == b@,
            seq_less(a@, b@) == seq_less(x@.skip(i as int), y@.skip(i as int)),
        decreases x.len() - i,
    {
        assert(x@.skip(i as int).drop_first() =~= x@.skip(i + 1));
        assert(y@.skip(i as int).drop_first() =~= y@.skip(i + 1));
        i += 1;
    }
    if i == x.len() {
        i < y.len()
    } else if i == y.len() {
        false
    } else {
        assert(x@.skip(i as int)[0] == x@[i as int]);
        assert(y@.skip(i as int)[0] == y@[i as int]);
        x[i] < y[i]
    }
}

/// `parts` joined with `sep` between each neighbouring pair.
pub open spec fn joined(parts: Seq<Seq<char>>, sep: Seq<char>) -> Seq<char>
    decreases parts.len(),
{
    if parts.len() == 0 {
        Seq::empty()
    } else if parts.len() == 1 {
        parts[0]
    } else {
        joined(parts.drop_last(), sep) + sep + parts.last()
    }
}

/// `parts` joined with `sep` between each neighbouring pair.
pub fn join(parts: &Vec<String>, sep: &str) -> (r: String)
    ensures
        r@ == joined(strings_view(parts@), sep@),
{
    let mut r = String::new();
    let ghost all = strings_view(parts@);
    for i in 0..parts.len()
        invariant
            all == strings_view(parts@),
            r@ == joined(all.take(i as int), sep@),
    {
        assert(all.take(i + 1).drop_last() =~= all.take(i as int));
        assert(all[i as int] == parts@[i as int]@);
        if i > 0 {
            r.append(sep);
        } else {
            assert(r@ =~= Seq::<char>::empty());
        }
        r.append(parts[i].as_str());
    }
    assert(all.take(parts.len() as int) =~= all);
    r
}


/// Texts in order: none sorts before one ahead of it.
pub open spec fn sorted_texts(s: Seq<Seq<char>>) -> bool {
    forall|i: int, j: int| 0 <= i < j < s.len() ==> !seq_less(#[trigger] s[j], #[trigger] s[i])
}

/// `k` is where `x` goes in `s` to keep it in order, after every text that
/// does not sort after `x`.
pub open spec fn insertion_point(s: Seq<Seq<char>>, x: Seq<char>, k: int) -> bool {
    &&& 0 <= k <= s.len()
    &&& forall|i: int| 0 <= i < k ==> !seq_less(x, #[trigger] s[i])
    &&& k < s.len() ==> seq_less(x, s[k])
}

/// Putting a text at its insertion point keeps a sorted sequence sorted.
pub proof fn lemma_insert_keeps_sorted(s: Seq<Seq<char>>, x: Seq<char>, k: int)
    requires
        sorted_texts(s),
        insertion_point(s, x, k),
    ensures
        sorted_texts(s.insert(k, x)),
{
    let t = s.insert(k, x);
    assert forall|i: int, j: int| 0 <= i < j < t.len() implies !seq_less(
        #[trigger] t[j],
        #[trigger] t[i],
    ) by {
        if j < k {
            assert(t[i] == s[i] && t[j] == s[j]);
        } else if j == k {
            assert(t[i] == s[i]);
        } else if i > k {
            assert(t[i] == s[i - 1] && t[j] == s[j - 1]);
        } else {
            // t[j] is s[j - 1], at or after the text x was put before
            let y = s[j - 1];
            assert(t[j] == y);
            assert(seq_less(x, y)) by {
                lemma_seq_less_total(s[k], y);
                if j - 1 > k {
                    assert(!seq_less(s[j - 1], s[k]));
                    if s[k] != y {
                        lemma_seq_less_transitive(x, s[k], y);
                    }
                }
            }
            lemma_seq_less_total(x, y);
            if i == k {
                assert(t[i] == x);
            } else {
                assert(t[i] == s[i]);
                assert(!seq_less(x, s[i]));
                // s[i] <= x < y
                lemma_seq_less_total(s[i], x);
                if s[i] != x {
                    lemma_seq_less_transitive(s[i], x, y);
                }
                lemma_seq_less_total(s[i], y);
            }
        }
    }
}

proof fn lemma_empty_texts_multiset(s: Seq<Seq<char>>)
    requires
        s.len() == 0,
    ensures
        s.to_multiset() == Multiset::<Seq<char>>::empty(),
{
    vstd::seq_lib::to_multiset_len(s);
    vstd::multiset::lemma_multiset_empty_len(s.to_multiset());
}

/// Where `x` goes among the sorted `keys`.
pub fn insertion_index(keys: &Vec<String>, x: &str) -> (k: usize)
    ensures
        insertion_point(strings_view(keys@), x@, k as int),
{
    let ghost ks = strings_view(keys@);
    let mut k: usize = 0;
    while k < keys.len()
        invariant
            0 <= k <= keys@.len(),
            ks == strings_view(keys@),
            forall|i: int| 0 <= i < k ==> !seq_less(x@, #[trigger] ks[i]),
        decreases keys.len() - k,
    {
        if str_less(x, keys[k].as_str()) {
            return k;
        }
        k += 1;
    }
    k
}

/// `v` in order, stably: texts that sort the same keep the order they came in.
pub fn sort_strings(v: Vec<String>) -> (r: Vec<String>)
    ensures
        sorted_texts(strings_view(r@)),
        strings_view(r@).to_multiset() == strings_view(v@).to_multiset(),
{
    let ghost all = strings_view(v@);
    let mut rest = v;
    let mut out: Vec<String> = Vec::new();
    proof {
        broadcast use vstd::multiset::group_multiset_axioms;

        assert(strings_view(out@) =~= Seq::<Seq<char>>::empty());
        lemma_empty_texts_multiset(strings_view(out@));
        assert(strings_view(rest@) == all);
        assert(Multiset::<Seq<char>>::empty().add(all.to_multiset()) =~= all.to_multiset());
    }
    while rest.len() > 0
        invariant
            sorted_texts(strings_view(out@)),
            strings_view(out@).to_multiset().add(strings_view(rest@).to_multiset())
                == all.to_multiset(),
        decreases rest.len(),
    {
        let ghost r0 = strings_view(rest@);
        let ghost o0 = strings_view(out@);
        let x = rest.remove(0);
        assert(strings_view(rest@) =~= r0.remove(0));
        let k = insertion_index(&out, x.as_str());
        proof {
            lemma_insert_keeps_sorted(o0, x@, k as int);
        }
        out.insert(k, x);
        assert(strings_view(out@) =~= o0.insert(k as int, x@));
        proof {
            broadcast use vstd::multiset::group_multiset_axioms;

            assert(r0[0] == x@);
            vstd::seq_lib::to_multiset_insert(o0, k as int, x@);
            vstd::seq_lib::to_multiset_remove(r0, 0);
            vstd::seq_lib::to_multiset_contains(r0, x@);
            assert(r0.contains(x@));
            assert(o0.to_multiset().insert(x@).add(r0.to_multiset().remove(x@))
                =~= o0.to_multiset().add(r0.to_multiset()));
        }
    }
    proof {
        broadcast use vstd::multiset::group_multiset_axioms;

        lemma_empty_texts_multiset(strings_view(rest@));
        assert(strings_view(out@).to_multiset().add(Multiset::empty()) =~= strings_view(
            out@,
        ).to_multiset());
    }
    out
}

} // verus!
