//! Encrypted room names: `part-part-...-id[checksum]`. A room is real when
//! its checksum lists the five most frequent letters of the name, ties broken
//! alphabetically; decryption shifts each letter forward by the sector id.

use vstd::prelude::*;
use vstd::string::StrSliceExecFns;
use vstd::string::StringExecFns;

use crate::chars::push_char;
use crate::parser::all_digits;
use crate::parser::digits_val;
use crate::parser::is_digit;

verus! {

/// A lowercase letter.
pub open spec fn is_lower(c: char) -> bool {
    'a' as u32 <= c as u32 <= 'z' as u32
}

pub open spec fn all_lower(s: Seq<char>) -> bool {
    forall|i: int| 0 <= i < s.len() ==> is_lower(#[trigger] s[i])
}

/// The `k`-th lowercase letter, counting from `a`.
pub open spec fn nth_lower(k: int) -> char
    recommends
        0 <= k < 26,
{
    (('a' as u32 + k) as u32) as char
}

/// Length of the leading run of characters other than `-`.
pub open spec fn field_len(s: Seq<char>) -> nat
    decreases s.len(),
{
    if s.len() == 0 || s[0] == '-' {
        0
    } else {
        1 + field_len(s.skip(1))
    }
}

pub proof fn lemma_field_len_le(s: Seq<char>)
    ensures
        field_len(s) <= s.len(),
    decreases s.len(),
{
    if s.len() > 0 && s[0] != '-' {
        lemma_field_len_le(s.skip(1));
    }
}

proof fn lemma_field_len_exact(s: Seq<char>, k: int)
    requires
        0 <= k <= s.len(),
        forall|t: int| 0 <= t < k ==> s[t] != '-',
        k == s.len() || s[k] == '-',
    ensures
        field_len(s) == k,
    decreases k,
{
    if k > 0 {
        let s1 = s.skip(1);
        assert(forall|t: int| 0 <= t < k - 1 ==> s1[t] == s[t + 1] && s1[t] != '-');
        assert(k - 1 == s1.len() || s1[k - 1] == '-');
        lemma_field_len_exact(s1, k - 1);
    }
}

/// The `-`-separated fields of a name, empty fields kept: every text has at
/// least one field.
pub open spec fn dash_split(s: Seq<char>) -> Seq<Seq<char>>
    decreases s.len(),
{
    let k = field_len(s) as int;
    if k >= s.len() {
        seq![s]
    } else {
        seq![s.take(k)] + dash_split(s.skip(k + 1))
    }
}

/// Length of the leading run of decimal digits.
pub open spec fn digits_prefix_len(s: Seq<char>) -> nat
    decreases s.len(),
{
    if s.len() == 0 || !is_digit(s[0]) {
        0
    } else {
        1 + digits_prefix_len(s.skip(1))
    }
}

pub proof fn lemma_digits_prefix_len_le(s: Seq<char>)
    ensures
        digits_prefix_len(s) <= s.len(),
    decreases s.len(),
{
    if s.len() > 0 && is_digit(s[0]) {
        lemma_digits_prefix_len_le(s.skip(1));
    }
}

proof fn lemma_digits_prefix_all(s: Seq<char>)
    ensures
        forall|t: int| 0 <= t < digits_prefix_len(s) ==> is_digit(#[trigger] s[t]),
    decreases s.len(),
{
    if s.len() > 0 && is_digit(s[0]) {
        lemma_digits_prefix_all(s.skip(1));
        lemma_digits_prefix_len_le(s);
        assert forall|t: int| 0 <= t < digits_prefix_len(s) implies is_digit(#[trigger] s[t]) by {
            if t > 0 {
                assert(s.skip(1)[t - 1] == s[t]);
                assert(is_digit(s.skip(1)[t - 1]));
            }
        };
    }
}

proof fn lemma_digits_prefix_len_exact(s: Seq<char>, k: int)
    requires
        0 <= k <= s.len(),
        forall|t: int| 0 <= t < k ==> is_digit(#[trigger] s[t]),
        k == s.len() || !is_digit(s[k]),
    ensures
        digits_prefix_len(s) == k,
    decreases k,
{
    if k > 0 {
        let s1 = s.skip(1);
        assert(forall|t: int| 0 <= t < k - 1 ==> s1[t] == s[t + 1] && is_digit(s1[t]));
        assert(k - 1 == s1.len() || !is_digit(s1[k - 1]));
        lemma_digits_prefix_len_exact(s1, k - 1);
    }
}

/// The final field of a room name: one or more digits, then the checksum in
/// square brackets.
pub open spec fn valid_sector_field(p: Seq<char>) -> bool {
    let ds = digits_prefix_len(p) as int;
    &&& ds >= 1
    &&& ds + 2 <= p.len()
    &&& p[ds] == '['
    &&& p.last() == ']'
    &&& all_lower(p.subrange(ds + 1, p.len() - 1))
}

/// The sector id written in the final field.
pub open spec fn sector_id_of(p: Seq<char>) -> int {
    digits_val(p.take(digits_prefix_len(p) as int))
}

/// The checksum written in the final field.
pub open spec fn checksum_of(p: Seq<char>) -> Seq<char> {
    p.subrange(digits_prefix_len(p) as int + 1, p.len() - 1)
}

/// A well-formed room name: dash-separated nonempty lowercase letter parts,
/// then a final field `id[checksum]` whose id fits an unsigned 32-bit value.
pub open spec fn valid_room(s: Seq<char>) -> bool {
    let ps = dash_split(s);
    &&& forall|i: int|
        0 <= i < ps.len() - 1 ==> (#[trigger] ps[i]).len() >= 1 && all_lower(ps[i])
    &&& valid_sector_field(ps.last())
    &&& sector_id_of(ps.last()) <= u32::MAX
}

/// The letter parts of a room name.
pub open spec fn room_letter_parts(s: Seq<char>) -> Seq<Seq<char>> {
    dash_split(s).drop_last()
}

/// Occurrences of `c` in one part.
pub open spec fn count_in(s: Seq<char>, c: char) -> nat
    decreases s.len(),
{
    if s.len() == 0 {
        0
    } else {
        count_in(s.drop_last(), c) + if s.last() == c {
            1nat
        } else {
            0nat
        }
    }
}

/// Occurrences of `c` across all parts.
pub open spec fn count_all(parts: Seq<Seq<char>>, c: char) -> nat
    decreases parts.len(),
{
    if parts.len() == 0 {
        0
    } else {
        count_all(parts.drop_last(), c) + count_in(parts.last(), c)
    }
}

/// The 26 letter counts of a name's letter parts, in alphabet order.
pub open spec fn counts_of(parts: Seq<Seq<char>>) -> Seq<nat> {
    Seq::new(26, |k: int| count_all(parts, nth_lower(k)))
}

/// The index of the largest count among the first `n`, ties going to the
/// smaller index (the earlier letter of the alphabet).
pub open spec fn best_upto(counts: Seq<nat>, n: int) -> int
    recommends
        1 <= n <= counts.len(),
    decreases n,
{
    if n <= 1 {
        0
    } else {
        let b = best_upto(counts, n - 1);
        if counts[n - 1] > counts[b] {
            n - 1
        } else {
            b
        }
    }
}

/// The `k` letters a checksum must list: repeatedly the most frequent letter
/// still in play (ties alphabetical), each picked letter then retired. `None`
/// when fewer than `k` distinct letters occur at all.
pub open spec fn expected_checksum(counts: Seq<nat>, k: nat) -> Option<Seq<char>>
    recommends
        counts.len() == 26,
    decreases k,
{
    if k == 0 {
        Some(Seq::empty())
    } else {
        let b = best_upto(counts, 26);
        if counts[b] == 0 {
            None
        } else {
            match expected_checksum(counts.update(b, 0), (k - 1) as nat) {
                Some(rest) => Some(seq![nth_lower(b)] + rest),
                None => None,
            }
        }
    }
}

proof fn lemma_expected_checksum_len(counts: Seq<nat>, k: nat)
    ensures
        expected_checksum(counts, k) matches Some(e) ==> e.len() == k,
    decreases k,
{
    if k > 0 {
        let b = best_upto(counts, 26);
        if counts[b] != 0 {
            lemma_expected_checksum_len(counts.update(b, 0), (k - 1) as nat);
        }
    }
}

/// A room is real when its written checksum is exactly the expected one.
pub open spec fn room_is_real(s: Seq<char>) -> bool {
    match expected_checksum(counts_of(room_letter_parts(s)), 5) {
        Some(e) => checksum_of(dash_split(s).last()) == e,
        None => false,
    }
}

/// `c` shifted forward through the lowercase alphabet by `n`, wrapping.
pub open spec fn shift_char(c: char, n: int) -> char
    recommends
        is_lower(c),
        n >= 0,
{
    nth_lower(((c as u32 - 'a' as u32) + n) % 26)
}

/// One part decrypted.
pub open spec fn decrypt_part(s: Seq<char>, n: int) -> Seq<char> {
    Seq::new(s.len(), |i: int| shift_char(s[i], n))
}

pub open spec fn decrypt_tail(parts: Seq<Seq<char>>, n: int) -> Seq<char>
    decreases parts.len(),
{
    if parts.len() == 0 {
        Seq::empty()
    } else {
        seq![' '] + decrypt_part(parts[0], n) + decrypt_tail(parts.skip(1), n)
    }
}

/// All parts decrypted and joined by single spaces.
pub open spec fn decrypt_spec(parts: Seq<Seq<char>>, n: int) -> Seq<char> {
    if parts.len() == 0 {
        Seq::empty()
    } else {
        decrypt_part(parts[0], n) + decrypt_tail(parts.skip(1), n)
    }
}

/// Total length of all parts.
pub open spec fn total_len(parts: Seq<Seq<char>>) -> nat
    decreases parts.len(),
{
    if parts.len() == 0 {
        0
    } else {
        total_len(parts.drop_last()) + parts.last().len()
    }
}

/// A parsed room name: the letter parts, the sector id, and the written
/// checksum.
pub struct ParsedName {
    pub letter_parts: Vec<String>,
    pub id: u32,
    pub checksum: String,
}

impl ParsedName {
    /// The letter parts as mathematical sequences.
    pub open spec fn parts_view(&self) -> Seq<Seq<char>> {
        self.letter_parts@.map_values(|p: String| p@)
    }

    /// Lowercase letter parts whose total length is addressable.
    pub open spec fn wf(&self) -> bool {
        &&& forall|i: int| 0 <= i < self.parts_view().len() ==> all_lower(
            #[trigger] self.parts_view()[i],
        )
        &&& total_len(self.parts_view()) <= usize::MAX
    }
}

} // verus!

verus! {

/// Splits a name into its `-`-separated fields, empty fields kept.
pub fn split_dash<'a>(s: &'a str) -> (r: Vec<&'a str>)
    ensures
        r@.map_values(|t: &str| t@) == dash_split(s@),
        r@.len() >= 1,
{
    let n = s.unicode_len();
    let mut out: Vec<&'a str> = Vec::new();
    let mut i: usize = 0;
    proof {
        assert(s@.skip(0) =~= s@);
        assert(out@.map_values(|t: &str| t@) + dash_split(s@) =~= dash_split(s@));
    }
    loop
        invariant
            i <= n,
            n == s@.len(),
            dash_split(s@) == out@.map_values(|t: &str| t@) + dash_split(s@.skip(i as int)),
        decreases n - i,
    {
        let mut j: usize = i;
        while j < n && s.get_char(j) != '-'
            invariant
                i <= j <= n,
                n == s@.len(),
                forall|k: int| i <= k < j ==> s@[k] != '-',
            decreases n - j,
        {
            j = j + 1;
        }
        let field = s.substring_char(i, j);
        proof {
            let rest = s@.skip(i as int);
            assert(forall|t: int| 0 <= t < j - i ==> rest[t] == s@[t + i] && rest[t] != '-');
            if j < n {
                assert(rest[j - i] == s@[j as int]);
            }
            lemma_field_len_exact(rest, j - i);
            assert(rest.take(j - i) =~= field@);
            assert(out@.push(field).map_values(|t: &str| t@) =~= out@.map_values(
                |t: &str| t@,
            ).push(field@));
            if j < n {
                assert(rest.skip(j - i + 1) =~= s@.skip(j as int + 1));
                assert(dash_split(rest) == seq![field@] + dash_split(s@.skip(j as int + 1)));
                assert((out@.map_values(|t: &str| t@).push(field@)) + dash_split(
                    s@.skip(j as int + 1),
                ) =~= out@.map_values(|t: &str| t@) + (seq![field@] + dash_split(
                    s@.skip(j as int + 1),
                )));
            } else {
                assert(rest =~= field@);
                assert(dash_split(rest) == seq![field@]);
                assert((out@.map_values(|t: &str| t@).push(field@)) =~= out@.map_values(
                    |t: &str| t@,
                ) + seq![field@]);
            }
        }
        out.push(field);
        if j < n {
            i = j + 1;
        } else {
            proof {
                assert(out@.map_values(|t: &str| t@).len() >= 1);
            }
            return out;
        }
    }
}

/// True when every character of `s` is a lowercase letter.
fn check_all_lower(s: &str) -> (r: bool)
    ensures
        r == all_lower(s@),
{
    let n = s.unicode_len();
    let mut i: usize = 0;
    while i < n
        invariant
            i <= n,
            n == s@.len(),
            forall|k: int| 0 <= k < i ==> is_lower(#[trigger] s@[k]),
        decreases n - i,
    {
        let c = s.get_char(i);
        let cu = c as u32;
        if !('a' as u32 <= cu && cu <= 'z' as u32) {
            assert(!is_lower(s@[i as int]));
            return false;
        }
        i = i + 1;
    }
    true
}

impl ParsedName {
    /// Parses a room name. `None` exactly when the text is not a well-formed
    /// room name; otherwise the parts, sector id and checksum are those the
    /// name spells.
    pub fn new(name: &str) -> (r: Option<ParsedName>)
        ensures
            r is Some <==> valid_room(name@),
            r matches Some(p) ==> ({
                let ps = dash_split(name@);
                &&& p.parts_view() == ps.drop_last()
                &&& p.id == sector_id_of(ps.last())
                &&& p.checksum@ == checksum_of(ps.last())
                &&& p.wf()
            }),
    {
        let name_len = name.unicode_len();
        let fields = split_dash(name);
        let ghost ps = dash_split(name@);
        let n_fields = fields.len();

        // every field but the last must be a nonempty lowercase word
        let mut letter_parts: Vec<String> = Vec::new();
        let mut i: usize = 0;
        let mut seen_len: usize = 0;
        while i < n_fields - 1
            invariant
                n_fields == fields@.len(),
                n_fields >= 1,
                fields@.map_values(|t: &str| t@) == ps,
                ps == dash_split(name@),
                name_len == name@.len(),
                i <= n_fields - 1,
                letter_parts@.len() == i,
                forall|k: int| 0 <= k < i ==> (#[trigger] letter_parts@[k])@ == ps[k],
                forall|k: int| 0 <= k < i ==> (#[trigger] ps[k]).len() >= 1 && all_lower(ps[k]),
                seen_len == total_len(ps.take(i as int)),
                seen_len <= usize::MAX,
            decreases n_fields - 1 - i,
        {
            proof {
                assert(fields@.map_values(|t: &str| t@)[i as int] == ps[i as int]);
            }
            let f = fields[i];
            if f.unicode_len() == 0 {
                proof {
                    assert(ps[i as int].len() == 0);
                    assert(!valid_room(name@));
                }
                return None;
            }
            if !check_all_lower(f) {
                proof {
                    assert(!all_lower(ps[i as int]));
                    assert(!valid_room(name@));
                }
                return None;
            }
            if usize::MAX - seen_len < f.unicode_len() {
                // a name this long cannot exist in one string, but the check
                // keeps the running total addressable
                proof {
                    lemma_dash_split_total_le(name@);
                    assert(ps.take(i as int + 1).drop_last() =~= ps.take(i as int));
                    assert(ps.take(i as int + 1).last() == ps[i as int]);
                    assert(total_len(ps.take(i as int + 1)) == total_len(ps.take(i as int))
                        + ps[i as int].len());
                    lemma_total_len_take_le(ps, i as int + 1, ps.len() as int);
                    assert(ps.take(ps.len() as int) =~= ps);
                    assert(total_len(ps) <= name@.len());
                    assert(false);
                }
            }
            seen_len = seen_len + f.unicode_len();
            proof {
                assert(ps.take(i as int + 1).drop_last() =~= ps.take(i as int));
                assert(ps.take(i as int + 1).last() == ps[i as int]);
            }
            letter_parts.push(String::from_str(f));
            i = i + 1;
        }

        // the last field must be digits, then a bracketed lowercase checksum
        proof {
            assert(fields@.map_values(|t: &str| t@)[n_fields - 1] == ps[n_fields - 1]);
            assert(ps.last() == ps[n_fields - 1]);
        }
        let last = fields[n_fields - 1];
        let ghost lf = ps.last();
        let m = last.unicode_len();
        let mut d: usize = 0;
        let mut id_val: u64 = 0;
        while d < m
            invariant
                d <= m,
                m == lf.len(),
                lf == last@,
                forall|k: int| 0 <= k < d ==> is_digit(#[trigger] lf[k]),
                id_val <= u32::MAX ==> id_val == digits_val(lf.take(d as int)),
                id_val > u32::MAX ==> digits_val(lf.take(d as int)) > u32::MAX,
                id_val <= 0xF_FFFF_FFFFu64,
            ensures
                d <= m,
                forall|k: int| 0 <= k < d ==> is_digit(#[trigger] lf[k]),
                d == m || !is_digit(lf[d as int]),
                id_val <= u32::MAX ==> id_val == digits_val(lf.take(d as int)),
                id_val > u32::MAX ==> digits_val(lf.take(d as int)) > u32::MAX,
            decreases m - d,
        {
            let c = last.get_char(d);
            let cu = c as u32;
            if !('0' as u32 <= cu && cu <= '9' as u32) {
                break;
            }
            let add: u64 = (cu - '0' as u32) as u64;
            proof {
                let pre = lf.take(d as int);
                let cur = lf.take(d as int + 1);
                assert(cur.drop_last() =~= pre);
                assert(cur.last() == lf[d as int]);
                assert(all_digits(pre));
                crate::parser::lemma_digits_val_nonneg(pre);
            }
            if id_val > u32::MAX as u64 {
                // already out of range; the value only grows
                proof {
                    let pre = lf.take(d as int);
                    let cur = lf.take(d as int + 1);
                    assert(digits_val(cur) == digits_val(pre) * 10 + (lf[d as int] as u32
                        - '0' as u32));
                }
            } else {
                id_val = id_val * 10 + add;
                proof {
                    let pre = lf.take(d as int);
                    let cur = lf.take(d as int + 1);
                    assert(digits_val(cur) == digits_val(pre) * 10 + (lf[d as int] as u32
                        - '0' as u32));
                }
            }
            d = d + 1;
        }
        proof {
            if d < m {
                assert(!is_digit(lf[d as int]));
            }
            lemma_digits_prefix_len_exact(lf, d as int);
        }
        if d == 0 {
            return None;
        }
        if m - d < 2 {
            return None;
        }
        if last.get_char(d) != '[' {
            return None;
        }
        if last.get_char(m - 1) != ']' {
            return None;
        }
        if id_val > u32::MAX as u64 {
            return None;
        }
        let checksum = last.substring_char(d + 1, m - 1);
        if !check_all_lower(checksum) {
            proof {
                assert(checksum@ =~= lf.subrange(d as int + 1, lf.len() - 1));
            }
            return None;
        }
        proof {
            assert(checksum@ =~= lf.subrange(d as int + 1, lf.len() - 1));
            assert(valid_sector_field(lf));
            assert(valid_room(name@));
            assert(ps.take(n_fields - 1) =~= ps.drop_last());
        }
        let p = ParsedName {
            letter_parts,
            id: id_val as u32,
            checksum: String::from_str(checksum),
        };
        proof {
            assert(p.parts_view() =~= ps.drop_last());
        }
        Some(p)
    }
}

/// The fields of a name never hold more characters than the name itself.
proof fn lemma_dash_split_total_le(s: Seq<char>)
    ensures
        total_len(dash_split(s)) <= s.len(),
    decreases s.len(),
{
    let k = field_len(s) as int;
    lemma_field_len_le(s);
    if k >= s.len() {
        assert(dash_split(s) == seq![s]);
        assert(seq![s].drop_last() =~= Seq::<Seq<char>>::empty());
        assert(total_len(seq![s]) == total_len(seq![s].drop_last()) + s.len());
        assert(total_len(Seq::<Seq<char>>::empty()) == 0);
    } else {
        assert(dash_split(s) == seq![s.take(k)] + dash_split(s.skip(k + 1)));
        lemma_dash_split_total_le(s.skip(k + 1));
        lemma_total_len_prepend(s.take(k), dash_split(s.skip(k + 1)));
    }
}

proof fn lemma_total_len_prepend(x: Seq<char>, parts: Seq<Seq<char>>)
    ensures
        total_len(seq![x] + parts) == x.len() + total_len(parts),
    decreases parts.len(),
{
    if parts.len() == 0 {
        assert((seq![x] + parts) =~= seq![x]);
        assert(total_len(seq![x]) == total_len(seq![x].drop_last()) + x.len());
        assert(seq![x].drop_last() =~= Seq::<Seq<char>>::empty());
    } else {
        assert((seq![x] + parts).drop_last() =~= seq![x] + parts.drop_last());
        assert((seq![x] + parts).last() == parts.last());
        lemma_total_len_prepend(x, parts.drop_last());
    }
}

/// A prefix of the parts never holds more characters than a longer prefix.
proof fn lemma_total_len_take_le(parts: Seq<Seq<char>>, a: int, b: int)
    requires
        0 <= a <= b <= parts.len(),
    ensures
        total_len(parts.take(a)) <= total_len(parts.take(b)),
    decreases b - a,
{
    if a < b {
        lemma_total_len_take_le(parts, a + 1, b);
        assert(parts.take(a + 1).drop_last() =~= parts.take(a));
    }
}

} // verus!

verus! {

impl ParsedName {
    /// Whether the written checksum is the expected one: the five most
    /// frequent letters of the letter parts, most frequent first, ties broken
    /// alphabetically, counting only letters that occur at all.
    pub fn is_valid(&self) -> (r: bool)
        requires
            self.wf(),
        ensures
            r == ({
                match expected_checksum(counts_of(self.parts_view()), 5) {
                    Some(e) => self.checksum@ == e,
                    None => false,
                }
            }),
    {
        let ghost pv = self.parts_view();

        // count every letter across the letter parts
        let mut counts: Vec<usize> = Vec::new();
        let mut z: usize = 0;
        while z < 26
            invariant
                z <= 26,
                counts@.len() == z,
                forall|k: int| 0 <= k < z ==> counts@[k] == 0,
            decreases 26 - z,
        {
            counts.push(0);
            z = z + 1;
        }
        proof {
            assert(total_len(pv.take(0)) == 0);
            assert(forall|k: int|
                0 <= k < 26 ==> #[trigger] counts@[k] == count_all(pv.take(0), nth_lower(k)));
        }

        let np = self.letter_parts.len();
        let mut p: usize = 0;
        while p < np
            invariant
                self.wf(),
                pv == self.parts_view(),
                np == pv.len(),
                p <= np,
                counts@.len() == 26,
                forall|k: int|
                    0 <= k < 26 ==> #[trigger] counts@[k] == count_all(pv.take(p as int), nth_lower(k)),
                forall|k: int| 0 <= k < 26 ==> #[trigger] counts@[k] <= total_len(pv.take(p as int)),
            decreases np - p,
        {
            proof {
                assert(pv[p as int] == self.letter_parts@[p as int]@);
                assert(all_lower(pv[p as int]));
                lemma_total_len_take_le(pv, p as int + 1, pv.len() as int);
                assert(pv.take(pv.len() as int) =~= pv);
                assert(pv.take(p as int + 1).drop_last() =~= pv.take(p as int));
                assert(pv.take(p as int + 1).last() == pv[p as int]);
            }
            let part = &self.letter_parts[p];
            let plen = part.as_str().unicode_len();
            let ghost ps = pv[p as int];
            let mut q: usize = 0;
            while q < plen
                invariant
                    self.wf(),
                    pv == self.parts_view(),
                    p < np,
                    np == pv.len(),
                    q <= plen,
                    plen == ps.len(),
                    ps == pv[p as int],
                    ps == self.letter_parts@[p as int]@,
                    part@ == ps,
                    counts@.len() == 26,
                    total_len(pv.take(p as int)) + ps.len() <= total_len(pv.take(p as int + 1)),
                    total_len(pv.take(p as int + 1)) <= usize::MAX,
                    forall|k: int|
                        0 <= k < 26 ==> #[trigger] counts@[k] == count_all(
                            pv.take(p as int),
                            nth_lower(k),
                        ) + count_in(ps.take(q as int), nth_lower(k)),
                    forall|k: int|
                        0 <= k < 26 ==> #[trigger] counts@[k] <= total_len(pv.take(p as int)) + q,
                decreases plen - q,
            {
                let c = part.as_str().get_char(q);
                proof {
                    assert(is_lower(ps[q as int]));
                }
                let idx = (c as u32 - 'a' as u32) as usize;
                let ghost pre = ps.take(q as int);
                let ghost cur = ps.take(q as int + 1);
                proof {
                    assert(cur.drop_last() =~= pre);
                    assert(cur.last() == ps[q as int]);
                    assert(nth_lower(idx as int) == c);
                    assert forall|k: int| 0 <= k < 26 && k != idx implies nth_lower(k) != c by {
                        assert(nth_lower(k) as u32 == 'a' as u32 + k);
                    };
                }
                let old_count = counts[idx];
                counts[idx] = old_count + 1;
                proof {
                    assert(forall|k: int|
                        0 <= k < 26 ==> count_in(cur, nth_lower(k)) == count_in(pre, nth_lower(k))
                            + if nth_lower(k) == c {
                            1nat
                        } else {
                            0nat
                        });
                }
                q = q + 1;
            }
            proof {
                assert(ps.take(plen as int) =~= ps);
            }
            p = p + 1;
        }
        proof {
            assert(pv.take(np as int) =~= pv);
        }

        // compare against the written checksum, five picks long
        if self.checksum.as_str().unicode_len() != 5 {
            proof {
                lemma_expected_checksum_len(counts_of(pv), 5);
            }
            return false;
        }

        let ghost cts0 = counts_of(pv);
        proof {
            assert(counts@.map_values(|x: usize| x as nat) =~= cts0);
        }

        let mut round: usize = 0;
        while round < 5
            invariant
                self.wf(),
                pv == self.parts_view(),
                cts0 == counts_of(pv),
                self.checksum@.len() == 5,
                round <= 5,
                counts@.len() == 26,
                ({
                    let cur = counts@.map_values(|x: usize| x as nat);
                    match expected_checksum(cts0, 5) {
                        Some(e) => self.checksum@.take(round as int) == e.take(round as int)
                            && expected_checksum(cur, (5 - round) as nat) == Some(
                            e.skip(round as int),
                        ),
                        None => expected_checksum(cur, (5 - round) as nat) is None,
                    }
                }),
            decreases 5 - round,
        {
            let ghost cur = counts@.map_values(|x: usize| x as nat);
            let mut best: usize = 0;
            let mut j: usize = 1;
            while j < 26
                invariant
                    counts@.len() == 26,
                    cur == counts@.map_values(|x: usize| x as nat),
                    1 <= j <= 26,
                    best < j,
                    best == best_upto(cur, j as int),
                decreases 26 - j,
            {
                if counts[j] > counts[best] {
                    best = j;
                }
                j = j + 1;
            }
            proof {
                assert(best == best_upto(cur, 26));
            }
            if counts[best] == 0 {
                proof {
                    assert(expected_checksum(cur, (5 - round) as nat) is None);
                }
                return false;
            }
            let ch_byte: u8 = 97 + (best as u8);
            let ch = ch_byte as char;
            proof {
                assert(ch == nth_lower(best as int));
            }
            let ghost rest_opt = expected_checksum(
                cur.update(best as int, 0),
                (5 - round - 1) as nat,
            );
            proof {
                assert(expected_checksum(cur, (5 - round) as nat) == (match rest_opt {
                    Some(rest) => Some(seq![nth_lower(best as int)] + rest),
                    None => None,
                }));
            }
            if self.checksum.as_str().get_char(round) != ch {
                proof {
                    if expected_checksum(cts0, 5) is Some {
                        let e = expected_checksum(cts0, 5).unwrap();
                        lemma_expected_checksum_len(cts0, 5);
                        assert(expected_checksum(cur, (5 - round) as nat) == Some(
                            e.skip(round as int),
                        ));
                        assert(rest_opt is Some);
                        assert(e.skip(round as int)[0] == nth_lower(best as int));
                        assert(e.skip(round as int)[0] == e[round as int]);
                        assert(e[round as int] == ch);
                        assert(self.checksum@[round as int] != e[round as int]);
                    }
                }
                return false;
            }
            let zero_val: usize = 0;
            counts[best] = zero_val;
            proof {
                let cur2 = counts@.map_values(|x: usize| x as nat);
                assert(cur2 =~= cur.update(best as int, 0));
                if expected_checksum(cts0, 5) is Some {
                    let e = expected_checksum(cts0, 5).unwrap();
                    lemma_expected_checksum_len(cts0, 5);
                    assert(expected_checksum(cur, (5 - round) as nat) == Some(
                        e.skip(round as int),
                    ));
                    assert(rest_opt is Some);
                    let rest = rest_opt.unwrap();
                    assert(seq![nth_lower(best as int)] + rest == e.skip(round as int));
                    assert(e.skip(round as int)[0] == e[round as int]);
                    assert((seq![nth_lower(best as int)] + rest).skip(1) =~= rest);
                    assert(e.skip(round as int).skip(1) =~= e.skip(round as int + 1));
                    assert(rest =~= e.skip(round as int + 1));
                    assert(self.checksum@[round as int] == e[round as int]);
                    assert(self.checksum@.take(round as int + 1) =~= self.checksum@.take(
                        round as int,
                    ).push(self.checksum@[round as int]));
                    assert(e.take(round as int + 1) =~= e.take(round as int).push(
                        e[round as int],
                    ));
                }
            }
            round = round + 1;
        }
        proof {
            if expected_checksum(cts0, 5) is Some {
                let e = expected_checksum(cts0, 5).unwrap();
                lemma_expected_checksum_len(cts0, 5);
                assert(self.checksum@.take(5) =~= self.checksum@);
                assert(e.take(5) =~= e);
            } else {
                let cur = counts@.map_values(|x: usize| x as nat);
                assert(expected_checksum(cur, 0) == Some(Seq::<char>::empty()));
            }
        }
        true
    }

    /// The decrypted name: every letter shifted forward by the sector id,
    /// parts joined by single spaces.
    pub fn decrypt(&self) -> (r: String)
        requires
            self.wf(),
        ensures
            r@ == decrypt_spec(self.parts_view(), self.id as int),
    {
        let ghost pv = self.parts_view();
        let ghost n = self.id as int;
        let mut out = String::new();
        let np = self.letter_parts.len();
        let mut p: usize = 0;
        while p < np
            invariant
                self.wf(),
                pv == self.parts_view(),
                n == self.id as int,
                np == pv.len(),
                p <= np,
                p == 0 ==> out@ =~= Seq::<char>::empty(),
                p >= 1 ==> decrypt_spec(pv, n) == out@ + decrypt_tail(pv.skip(p as int), n),
            decreases np - p,
        {
            if p > 0 {
                push_char(&mut out, ' ');
            }
            let part = &self.letter_parts[p];
            let plen = part.as_str().unicode_len();
            let ghost ps = pv[p as int];
            proof {
                assert(ps == self.letter_parts@[p as int]@);
                assert(all_lower(ps));
            }
            let ghost base = out@;
            let mut q: usize = 0;
            while q < plen
                invariant
                    self.wf(),
                    pv == self.parts_view(),
                    n == self.id as int,
                    p < np,
                    np == pv.len(),
                    q <= plen,
                    plen == ps.len(),
                    ps == pv[p as int],
                    ps == self.letter_parts@[p as int]@,
                    part@ == ps,
                    all_lower(ps),
                    out@ =~= base + decrypt_part(ps, n).take(q as int),
                decreases plen - q,
            {
                let c = part.as_str().get_char(q);
                proof {
                    assert(is_lower(ps[q as int]));
                }
                let pos: u64 = (c as u32 - 'a' as u32) as u64;
                let shifted: u64 = (pos + self.id as u64) % 26;
                let ch_byte: u8 = 97 + (shifted as u8);
                let ch = ch_byte as char;
                proof {
                    assert(shifted == ((ps[q as int] as u32 - 'a' as u32) + n) % 26);
                    assert(ch == shift_char(ps[q as int], n));
                    assert(decrypt_part(ps, n).take(q as int + 1) =~= decrypt_part(ps, n).take(
                        q as int,
                    ).push(decrypt_part(ps, n)[q as int]));
                }
                push_char(&mut out, ch);
                q = q + 1;
            }
            proof {
                assert(decrypt_part(ps, n).take(plen as int) =~= decrypt_part(ps, n));
                if p == 0 {
                    assert(out@ =~= decrypt_part(pv[0], n));
                    assert(decrypt_spec(pv, n) == decrypt_part(pv[0], n) + decrypt_tail(
                        pv.skip(1),
                        n,
                    ));
                } else {
                    assert(decrypt_tail(pv.skip(p as int), n) == seq![' '] + decrypt_part(
                        pv.skip(p as int)[0],
                        n,
                    ) + decrypt_tail(pv.skip(p as int).skip(1), n));
                    assert(pv.skip(p as int)[0] == ps);
                    assert(pv.skip(p as int).skip(1) =~= pv.skip(p as int + 1));
                }
            }
            p = p + 1;
        }
        proof {
            if np >= 1 {
                assert(pv.skip(np as int) =~= Seq::<Seq<char>>::empty());
                assert(out@ =~= decrypt_spec(pv, n));
            } else {
                assert(decrypt_spec(pv, n) =~= Seq::<char>::empty());
            }
        }
        out
    }
}

/// The sum of the sector ids of the real rooms among the given names.
pub open spec fn sum_of_real_ids(ls: Seq<Seq<char>>) -> int
    decreases ls.len(),
{
    if ls.len() == 0 {
        0
    } else {
        sum_of_real_ids(ls.drop_last()) + if room_is_real(ls.last()) {
            sector_id_of(dash_split(ls.last()).last())
        } else {
            0
        }
    }
}

proof fn lemma_sum_real_take_step(ls: Seq<Seq<char>>, i: int)
    requires
        0 <= i < ls.len(),
    ensures
        sum_of_real_ids(ls.take(i + 1)) == sum_of_real_ids(ls.take(i)) + if room_is_real(ls[i]) {
            sector_id_of(dash_split(ls[i]).last())
        } else {
            0
        },
{
    assert(ls.take(i + 1).drop_last() =~= ls.take(i));
    assert(ls.take(i + 1).last() == ls[i]);
}

proof fn lemma_sum_real_take_le(ls: Seq<Seq<char>>, a: int, b: int)
    requires
        0 <= a <= b <= ls.len(),
        forall|i: int| 0 <= i < ls.len() ==> valid_room(#[trigger] ls[i]),
    ensures
        sum_of_real_ids(ls.take(a)) <= sum_of_real_ids(ls.take(b)),
    decreases b - a,
{
    if a < b {
        lemma_sum_real_take_step(ls, a);
        if room_is_real(ls[a]) {
            assert(valid_room(ls[a]));
            let p = dash_split(ls[a]).last();
            lemma_digits_prefix_all(p);
            lemma_digits_prefix_len_le(p);
            assert(all_digits(p.take(digits_prefix_len(p) as int)));
            crate::parser::lemma_digits_val_nonneg(p.take(digits_prefix_len(p) as int));
        }
        lemma_sum_real_take_le(ls, a + 1, b);
    }
}

/// Sums the sector ids of the real rooms, one room name per line.
pub fn sum_valid_ids(input: &str) -> (r: u32)
    requires
        forall|i: int|
            0 <= i < crate::parser::lines_of(input@).len() ==> valid_room(
                #[trigger] crate::parser::lines_of(input@)[i],
            ),
        sum_of_real_ids(crate::parser::lines_of(input@)) <= u32::MAX,
    ensures
        r == sum_of_real_ids(crate::parser::lines_of(input@)),
{
    let lines = crate::parser::split_lines(input);
    let ghost ls = crate::parser::lines_of(input@);
    let mut sum: u32 = 0;
    let mut i: usize = 0;
    while i < lines.len()
        invariant
            lines@.map_values(|t: &str| t@) == ls,
            ls == crate::parser::lines_of(input@),
            forall|k: int| 0 <= k < ls.len() ==> valid_room(#[trigger] ls[k]),
            sum_of_real_ids(ls) <= u32::MAX,
            i <= lines@.len(),
            sum == sum_of_real_ids(ls.take(i as int)),
        decreases lines@.len() - i,
    {
        proof {
            assert(lines@.map_values(|t: &str| t@)[i as int] == ls[i as int]);
            assert(valid_room(ls[i as int]));
        }
        let parsed = match ParsedName::new(lines[i]) {
            Some(p) => p,
            None => {
                proof {
                    assert(false);
                }
                return 0;
            },
        };
        proof {
            lemma_sum_real_take_step(ls, i as int);
            lemma_sum_real_take_le(ls, i as int + 1, ls.len() as int);
            assert(ls.take(ls.len() as int) =~= ls);
        }
        if parsed.is_valid() {
            proof {
                assert(room_is_real(ls[i as int]));
            }
            sum = sum + parsed.id;
        } else {
            proof {
                assert(!room_is_real(ls[i as int]));
            }
        }
        i = i + 1;
    }
    proof {
        assert(ls.take(lines@.len() as int) =~= ls);
    }
    sum
}

} // verus!
