//! Small utilities: hexadecimal parsing and printing of addresses, and
//! the topic filters that callers use to query the log source.

use vstd::prelude::*;

use crate::addr::{contains_word, Address, U256};

verus! {

/// The character for a single hexadecimal digit (lower case).
pub open spec fn hex_char(d: u8) -> char {
    if d == 0 {
        '0'
    } else if d == 1 {
        '1'
    } else if d == 2 {
        '2'
    } else if d == 3 {
        '3'
    } else if d == 4 {
        '4'
    } else if d == 5 {
        '5'
    } else if d == 6 {
        '6'
    } else if d == 7 {
        '7'
    } else if d == 8 {
        '8'
    } else if d == 9 {
        '9'
    } else if d == 10 {
        'a'
    } else if d == 11 {
        'b'
    } else if d == 12 {
        'c'
    } else if d == 13 {
        'd'
    } else if d == 14 {
        'e'
    } else {
        'f'
    }
}

/// Appends the character of one hexadecimal (or decimal) digit.
pub fn append_digit(s: &mut String, d: u8)
    requires
        d < 16,
    ensures
        final(s)@ == old(s)@.push(hex_char(d)),
{
    let lit: &str = match d {
        0 => "0",
        1 => "1",
        2 => "2",
        3 => "3",
        4 => "4",
        5 => "5",
        6 => "6",
        7 => "7",
        8 => "8",
        9 => "9",
        10 => "a",
        11 => "b",
        12 => "c",
        13 => "d",
        14 => "e",
        _ => "f",
    };
    proof {
        reveal_strlit("0");
        reveal_strlit("1");
        reveal_strlit("2");
        reveal_strlit("3");
        reveal_strlit("4");
        reveal_strlit("5");
        reveal_strlit("6");
        reveal_strlit("7");
        reveal_strlit("8");
        reveal_strlit("9");
        reveal_strlit("a");
        reveal_strlit("b");
        reveal_strlit("c");
        reveal_strlit("d");
        reveal_strlit("e");
        reveal_strlit("f");
    }
    let ghost pre = s@;
    s.append(lit);
    proof {
        assert(s@ =~= pre.push(hex_char(d)));
    }
}

/// The numeric value of a hexadecimal digit character, or 16 where the
/// character is no such digit.
pub open spec fn hex_val(c: char) -> u8 {
    let u = c as u32;
    if 48 <= u <= 57 {
        (u - 48) as u8
    } else if 97 <= u <= 102 {
        (u - 87) as u8
    } else if 65 <= u <= 70 {
        (u - 55) as u8
    } else {
        16
    }
}

pub open spec fn is_hex_digit(c: char) -> bool {
    hex_val(c) < 16
}

/// The value of a big-endian string of hexadecimal digits.
pub open spec fn hex_seq_val(s: Seq<char>) -> nat
    decreases s.len(),
{
    if s.len() == 0 {
        0
    } else {
        (hex_seq_val(s.drop_last()) * 16 + hex_val(s.last())) as nat
    }
}

/// 16 to the `n`th power, the bound on an `n`-digit hexadecimal value.
pub open spec fn pow16(n: nat) -> nat
    decreases n,
{
    if n == 0 {
        1nat
    } else {
        16 * pow16((n - 1) as nat)
    }
}

pub proof fn lemma_hex_seq_val_bound(s: Seq<char>)
    requires
        forall|i: int| 0 <= i < s.len() ==> is_hex_digit(#[trigger] s[i]),
    ensures
        hex_seq_val(s) < pow16(s.len() as nat),
    decreases s.len(),
{
    if s.len() > 0 {
        assert(forall|i: int|
            0 <= i < s.drop_last().len() ==> is_hex_digit(#[trigger] s.drop_last()[i]));
        lemma_hex_seq_val_bound(s.drop_last());
        assert(is_hex_digit(s.last()));
    }
}

pub proof fn lemma_pow16_mono(m: nat, n: nat)
    requires
        m <= n,
    ensures
        pow16(m) <= pow16(n),
    decreases n,
{
    if m < n {
        lemma_pow16_mono(m, (n - 1) as nat);
    }
}

pub proof fn lemma_pow16_8_32()
    ensures
        pow16(8) == 0x1_0000_0000,
        pow16(32) == 0x1_0000_0000_0000_0000_0000_0000_0000_0000,
{
    reveal_with_fuel(pow16, 33);
}

/// The digits of the string, a leading `0x` stripped.
pub open spec fn strip_hex_prefix(s: Seq<char>) -> Seq<char> {
    if s.len() >= 2 && s[0] == '0' && s[1] == 'x' {
        s.skip(2)
    } else {
        s
    }
}

/// Exactly 40 characters, every one a hexadecimal digit.
pub open spec fn addr_digits_ok(t: Seq<char>) -> bool {
    t.len() == 40 && (forall|i: int| 0 <= i < 40 ==> is_hex_digit(#[trigger] t[i]))
}

/// The address written by 40 hexadecimal digits: the first 8 give the
/// high third, the last 32 the low part.
pub open spec fn addr_of_digits(t: Seq<char>) -> Address {
    Address { hi: hex_seq_val(t.subrange(0, 8)) as u32, lo: hex_seq_val(t.subrange(8, 40)) as u128 }
}

/// The address written by a string of 40 hexadecimal digits, an
/// optional `0x` in front.
pub open spec fn spec_parse_address(s: Seq<char>) -> Option<Address> {
    if addr_digits_ok(strip_hex_prefix(s)) {
        Some(addr_of_digits(strip_hex_prefix(s)))
    } else {
        None
    }
}

/// Reads the digit at `t[i]`, or reports a foreign character.
fn hex_digit_at(t: &str, i: usize) -> (r: Option<u8>)
    requires
        i < t@.len(),
    ensures
        match r {
            Some(d) => is_hex_digit(t@[i as int]) && d == hex_val(t@[i as int]),
            None => !is_hex_digit(t@[i as int]),
        },
{
    let c = t.get_char(i);
    let u = c as u32;
    if 48 <= u && u <= 57 {
        Some((u - 48) as u8)
    } else if 97 <= u && u <= 102 {
        Some((u - 87) as u8)
    } else if 65 <= u && u <= 70 {
        Some((u - 55) as u8)
    } else {
        None
    }
}

/// Parses the string as a 40-digit hexadecimal number, with or without
/// a leading `0x`, and returns the corresponding `Address`.
pub fn parse_address(s: &str) -> (r: Option<Address>)
    ensures
        r == spec_parse_address(s@),
{
    let n: usize = s.unicode_len();
    let skip: usize = if n >= 2 && s.get_char(0) == '0' && s.get_char(1) == 'x' {
        2
    } else {
        0
    };
    let ghost t = if skip == 2 {
        s@.skip(2)
    } else {
        s@
    };
    proof {
        assert(t.len() == n - skip);
        assert(forall|i: int| 0 <= i < t.len() ==> t[i] == s@[i + skip]);
    }
    if n - skip != 40 {
        return None;
    }
    // The first 8 digits form `hi`, the remaining 32 form `lo`.
    let mut hi: u32 = 0;
    let mut i: usize = 0;
    while i < 8
        invariant
            i <= 8,
            skip + 40 == n,
            n == s@.len(),
            skip == 0 || skip == 2,
            (skip == 2) == (s@.len() >= 2 && s@[0] == '0' && s@[1] == 'x'),
            t == (if skip == 2 {
                s@.skip(2)
            } else {
                s@
            }),
            t.len() == 40,
            forall|k: int| 0 <= k < i ==> is_hex_digit(#[trigger] t[k]),
            hi == hex_seq_val(t.subrange(0, i as int)),
            hi < pow16(i as nat),
        decreases 8 - i,
    {
        let d = match hex_digit_at(s, skip + i) {
            Some(d) => d,
            None => {
                proof {
                    assert(t[i as int] == s@[i + skip]);
                    assert(!is_hex_digit(t[i as int]));
                    assert(!addr_digits_ok(t));
                    assert(strip_hex_prefix(s@) == t);
                }
                return None;
            },
        };
        proof {
            assert(t[i as int] == s@[i + skip]);
            let sub1 = t.subrange(0, i + 1);
            assert(sub1.drop_last() =~= t.subrange(0, i as int));
            assert(sub1.last() == t[i as int]);
            lemma_pow16_mono((i + 1) as nat, 8);
            lemma_pow16_8_32();
        }
        hi = hi * 16 + (d as u32);
        i = i + 1;
    }
    let mut lo: u128 = 0;
    let mut j: usize = 0;
    while j < 32
        invariant
            j <= 32,
            skip + 40 == n,
            n == s@.len(),
            skip == 0 || skip == 2,
            (skip == 2) == (s@.len() >= 2 && s@[0] == '0' && s@[1] == 'x'),
            t == (if skip == 2 {
                s@.skip(2)
            } else {
                s@
            }),
            t.len() == 40,
            forall|k: int| 0 <= k < 8 + j ==> is_hex_digit(#[trigger] t[k]),
            lo == hex_seq_val(t.subrange(8, 8 + j)),
            lo < pow16(j as nat),
            hi == hex_seq_val(t.subrange(0, 8)),
        decreases 32 - j,
    {
        let d = match hex_digit_at(s, skip + 8 + j) {
            Some(d) => d,
            None => {
                proof {
                    assert(t[8 + j] == s@[8 + j + skip]);
                    assert(!is_hex_digit(t[8 + j]));
                    assert(!addr_digits_ok(t));
                    assert(strip_hex_prefix(s@) == t);
                }
                return None;
            },
        };
        proof {
            assert(t[8 + j] == s@[8 + j + skip]);
            let sub1 = t.subrange(8, 8 + j + 1);
            assert(sub1.drop_last() =~= t.subrange(8, 8 + j));
            assert(sub1.last() == t[8 + j]);
            lemma_pow16_mono((j + 1) as nat, 32);
            lemma_pow16_8_32();
        }
        lo = lo * 16 + (d as u128);
        j = j + 1;
    }
    proof {
        lemma_pow16_8_32();
        assert(t.subrange(8, 40) =~= t.subrange(8, 8 + (32 as int)));
        assert(addr_digits_ok(t));
        assert(strip_hex_prefix(s@) == t);
        assert(addr_of_digits(t) == (Address { hi, lo }));
    }
    Some(Address { hi, lo })
}

/// The two hexadecimal characters of one byte.
pub open spec fn byte_hex(x: u8) -> Seq<char> {
    seq![hex_char(x >> 4), hex_char(x & 0xF)]
}

/// Appends the two hexadecimal characters of one byte.
pub fn append_byte_hex(s: &mut String, x: u8)
    ensures
        final(s)@ == old(s)@ + byte_hex(x),
{
    proof {
        assert((x >> 4) < 16 && (x & 0xF) < 16) by (bit_vector);
    }
    let ghost pre = s@;
    append_digit(s, x >> 4);
    append_digit(s, x & 0xF);
    proof {
        assert(s@ =~= pre + byte_hex(x));
    }
}

/// Wrapper for a byte string, rendered as a shortened hexadecimal
/// text: a `0x`, the first two bytes, an ellipsis, the last two.
pub struct HexBytes<'a>(pub &'a [u8]);

/// The shortened hexadecimal text of a byte string.
pub open spec fn spec_hex_bytes(b: Seq<u8>) -> Seq<char> {
    seq!['0', 'x'] + byte_hex(b[0]) + byte_hex(b[1]) + seq!['…'] + byte_hex(b[b.len() - 2])
        + byte_hex(b[b.len() - 1])
}

impl<'a> HexBytes<'a> {
    /// The shortened hexadecimal text of the wrapped bytes.
    pub fn to_text(&self) -> (r: String)
        requires
            self.0@.len() >= 2,
        ensures
            r@ == spec_hex_bytes(self.0@),
    {
        let n: usize = self.0.len();
        let mut s = String::new();
        proof {
            reveal_strlit("0x");
            reveal_strlit("…");
        }
        s.append("0x");
        assert(s@ =~= seq!['0', 'x']);
        append_byte_hex(&mut s, self.0[0]);
        append_byte_hex(&mut s, self.0[1]);
        let ghost mid = s@;
        s.append("…");
        assert(s@ =~= mid + seq!['…']);
        append_byte_hex(&mut s, self.0[n - 2]);
        append_byte_hex(&mut s, self.0[n - 1]);
        proof {
            assert(s@ =~= spec_hex_bytes(self.0@));
        }
        s
    }
}

/// The shortened hexadecimal text of an address: its first two and
/// last two bytes around an ellipsis.
pub open spec fn spec_addr_short_hex(a: Address) -> Seq<char> {
    seq!['0', 'x'] + byte_hex(((a.hi >> 24) & 0xFF) as u8) + byte_hex(((a.hi >> 16) & 0xFF) as u8)
        + seq!['…'] + byte_hex(((a.lo >> 8) & 0xFF) as u8) + byte_hex((a.lo & 0xFF) as u8)
}

/// Appends the shortened hexadecimal text of one address.
fn append_addr_short_hex(s: &mut String, a: &Address)
    ensures
        final(s)@ == old(s)@ + spec_addr_short_hex(*a),
{
    let ghost pre = s@;
    proof {
        reveal_strlit("0x");
        reveal_strlit("…");
        let hi = a.hi;
        let lo = a.lo;
        assert(((hi >> 24) & 0xFF) < 256 && ((hi >> 16) & 0xFF) < 256) by (bit_vector);
        assert(((lo >> 8) & 0xFF) < 256 && (lo & 0xFF) < 256) by (bit_vector);
    }
    s.append("0x");
    assert(s@ =~= pre + seq!['0', 'x']);
    append_byte_hex(s, ((a.hi >> 24) & 0xFF) as u8);
    append_byte_hex(s, ((a.hi >> 16) & 0xFF) as u8);
    let ghost mid = s@;
    s.append("…");
    assert(s@ =~= mid + seq!['…']);
    append_byte_hex(s, ((a.lo >> 8) & 0xFF) as u8);
    append_byte_hex(s, (a.lo & 0xFF) as u8);
    proof {
        assert(s@ =~= pre + spec_addr_short_hex(*a));
    }
}

/// Wrapper for a list of addresses, rendered as shortened hexadecimal
/// texts separated by commas.
pub struct HexList(pub Vec<Address>);

/// The comma-separated shortened hexadecimal text of a list.
pub open spec fn spec_hex_list(v: Seq<Address>) -> Seq<char>
    decreases v.len(),
{
    if v.len() == 0 {
        Seq::<char>::empty()
    } else if v.len() == 1 {
        spec_addr_short_hex(v[0])
    } else {
        spec_hex_list(v.drop_last()) + seq![',', ' '] + spec_addr_short_hex(v.last())
    }
}

impl HexList {
    /// The comma-separated shortened hexadecimal text of the list.
    pub fn to_text(&self) -> (r: String)
        ensures
            r@ == spec_hex_list(self.0@),
    {
        let n: usize = self.0.len();
        let mut s = String::new();
        let mut i: usize = 0;
        proof {
            reveal_strlit(", ");
        }
        while i < n
            invariant
                i <= n,
                n == self.0@.len(),
                s@ == spec_hex_list(self.0@.subrange(0, i as int)),
            decreases n - i,
        {
            proof {
                let sub1 = self.0@.subrange(0, i + 1);
                assert(sub1.drop_last() =~= self.0@.subrange(0, i as int));
                assert(sub1.last() == self.0@[i as int]);
                reveal_strlit(", ");
            }
            if i > 0 {
                let ghost mid = s@;
                s.append(", ");
                assert(s@ =~= mid + seq![',', ' ']);
            }
            append_addr_short_hex(&mut s, &self.0[i]);
            i = i + 1;
        }
        proof {
            assert(self.0@.subrange(0, n as int) =~= self.0@);
        }
        s
    }
}

/// One topic position of a log query: anything, one word, or any of a
/// list of words.
pub enum TopicChoice {
    Any,
    This(U256),
    OneOf(Vec<U256>),
}

/// The mathematical content of a topic position.
pub ghost enum TopicChoiceV {
    Any,
    This(U256),
    OneOf(Seq<U256>),
}

impl View for TopicChoice {
    type V = TopicChoiceV;

    open spec fn view(&self) -> TopicChoiceV {
        match self {
            TopicChoice::Any => TopicChoiceV::Any,
            TopicChoice::This(w) => TopicChoiceV::This(*w),
            TopicChoice::OneOf(v) => TopicChoiceV::OneOf(v@),
        }
    }
}

/// Whether a concrete topic word satisfies the choice.
pub open spec fn topic_matches(t: TopicChoiceV, w: U256) -> bool {
    match t {
        TopicChoiceV::Any => true,
        TopicChoiceV::This(x) => w == x,
        TopicChoiceV::OneOf(v) => v.contains(w),
    }
}

/// The words of a choice: `Any` has none, `This` one, `OneOf` its list.
pub open spec fn choice_elems(t: TopicChoiceV) -> Option<Seq<U256>> {
    match t {
        TopicChoiceV::Any => None,
        TopicChoiceV::This(x) => Some(seq![x]),
        TopicChoiceV::OneOf(v) => Some(v),
    }
}

/// `va` followed by the members of `vb` not yet present, in order of
/// first appearance.
pub open spec fn seq_union(va: Seq<U256>, vb: Seq<U256>) -> Seq<U256>
    decreases vb.len(),
{
    if vb.len() == 0 {
        va
    } else {
        seq_union(
            if va.contains(vb[0]) {
                va
            } else {
                va.push(vb[0])
            },
            vb.drop_first(),
        )
    }
}

/// The union holds exactly the members of both lists.
pub proof fn lemma_seq_union_contains(va: Seq<U256>, vb: Seq<U256>)
    ensures
        forall|x: U256| seq_union(va, vb).contains(x) <==> va.contains(x) || vb.contains(x),
    decreases vb.len(),
{
    if vb.len() > 0 {
        let va1 = if va.contains(vb[0]) {
            va
        } else {
            va.push(vb[0])
        };
        lemma_seq_union_contains(va1, vb.drop_first());
        assert forall|x: U256| va1.contains(x) <==> va.contains(x) || x == vb[0] by {
            if va1.contains(x) && !va.contains(x) {
                let j = choose|j: int| 0 <= j < va1.len() && va1[j] == x;
                if j < va.len() {
                    assert(va[j] == x);
                }
            }
            if va.contains(x) {
                let j = choose|j: int| 0 <= j < va.len() && va[j] == x;
                assert(va1[j] == x);
            }
            if x == vb[0] && !va.contains(x) {
                assert(va1.last() == x);
            }
        }
        assert forall|x: U256| vb.contains(x) <==> x == vb[0] || vb.drop_first().contains(x) by {
            if vb.contains(x) && x != vb[0] {
                let j = choose|j: int| 0 <= j < vb.len() && vb[j] == x;
                assert(vb.drop_first()[j - 1] == x);
            }
            if vb.drop_first().contains(x) {
                let j = choose|j: int| 0 <= j < vb.drop_first().len() && vb.drop_first()[j] == x;
                assert(vb[j + 1] == x);
            }
        }
    }
}

/// The union of two topic positions: `Any` swallows everything; two
/// lists join, duplicates dropped; a single word stays a single word.
pub open spec fn spec_choice_or(a: TopicChoiceV, b: TopicChoiceV) -> TopicChoiceV {
    match (choice_elems(a), choice_elems(b)) {
        (Some(va), Some(vb)) => {
            let u = seq_union(va, vb);
            if u.len() == 1 {
                TopicChoiceV::This(u[0])
            } else {
                TopicChoiceV::OneOf(u)
            }
        },
        _ => TopicChoiceV::Any,
    }
}

/// A choice with a word list matches exactly the members of that list.
proof fn lemma_elems_match(t: TopicChoiceV, w: U256)
    requires
        choice_elems(t) is Some,
    ensures
        topic_matches(t, w) <==> choice_elems(t)->Some_0.contains(w),
{
    match t {
        TopicChoiceV::This(x) => {
            assert(seq![x][0] == x);
            if seq![x].contains(w) {
                let j = choose|j: int| 0 <= j < seq![x].len() && seq![x][j] == w;
                assert(j == 0);
            }
        },
        _ => {},
    }
}

/// Law: a word matches the union of two topic positions exactly when
/// it matches at least one of the two.
pub proof fn lemma_choice_or_matches(a: TopicChoiceV, b: TopicChoiceV)
    ensures
        forall|w: U256|
            topic_matches(spec_choice_or(a, b), w) <==> topic_matches(a, w) || topic_matches(b, w),
{
    match (choice_elems(a), choice_elems(b)) {
        (Some(va), Some(vb)) => {
            lemma_seq_union_contains(va, vb);
            let u = seq_union(va, vb);
            assert forall|w: U256|
                topic_matches(spec_choice_or(a, b), w) <==> topic_matches(a, w) || topic_matches(
                    b,
                    w,
                ) by {
                lemma_elems_match(a, w);
                lemma_elems_match(b, w);
                if u.len() == 1 {
                    assert(u.contains(u[0]));
                    if u.contains(w) {
                        let j = choose|j: int| 0 <= j < u.len() && u[j] == w;
                        assert(j == 0);
                    }
                }
            }
        },
        _ => {},
    }
}

impl TopicChoice {
    /// Converts this choice into an `Option<Vec<U256>>`, where `Any`
    /// corresponds to `None`, `This` to a vector with one element, and
    /// `OneOf` to its vector.
    pub fn to_opt_vec(self) -> (r: Option<Vec<U256>>)
        ensures
            match r {
                Some(v) => choice_elems(self@) == Some(v@),
                None => choice_elems(self@) is None,
            },
    {
        match self {
            TopicChoice::Any => None,
            TopicChoice::This(w) => {
                let mut v: Vec<U256> = Vec::new();
                v.push(w);
                assert(v@ =~= seq![w]);
                Some(v)
            },
            TopicChoice::OneOf(v) => Some(v),
        }
    }

    /// Returns the union of the two choices.
    pub fn or(self, other: TopicChoice) -> (r: TopicChoice)
        ensures
            r@ == spec_choice_or(self@, other@),
    {
        let ghost a = self@;
        let ghost b = other@;
        match (self.to_opt_vec(), other.to_opt_vec()) {
            (Some(mut v0), Some(v1)) => {
                let ghost va = v0@;
                let ghost vb = v1@;
                proof {
                    assert(vb.skip(0) =~= vb);
                }
                let n: usize = v1.len();
                let mut i: usize = 0;
                while i < n
                    invariant
                        i <= n,
                        n == v1@.len(),
                        v1@ == vb,
                        seq_union(v0@, vb.skip(i as int)) == seq_union(va, vb),
                    decreases n - i,
                {
                    proof {
                        assert(vb.skip(i as int)[0] == vb[i as int]);
                        assert(vb.skip(i as int).drop_first() =~= vb.skip(i + 1));
                    }
                    let e = v1[i];
                    if !contains_word(&v0, &e) {
                        v0.push(e);
                    }
                    i = i + 1;
                }
                proof {
                    assert(vb.skip(n as int).len() == 0);
                    assert(seq_union(v0@, vb.skip(n as int)) == v0@);
                }
                if v0.len() == 1 {
                    TopicChoice::This(v0[0])
                } else {
                    TopicChoice::OneOf(v0)
                }
            },
            (r0, r1) => {
                // At least one side matches anything, so the union does.
                TopicChoice::Any
            },
        }
    }
}

/// The four topic positions of a log query, to be combined by a caller
/// into its transport's native filter form.
pub struct TopicQuery {
    pub topic0: TopicChoice,
    pub topic1: TopicChoice,
    pub topic2: TopicChoice,
    pub topic3: TopicChoice,
}

/// The mathematical content of a query.
pub ghost struct TopicQueryV {
    pub topic0: TopicChoiceV,
    pub topic1: TopicChoiceV,
    pub topic2: TopicChoiceV,
    pub topic3: TopicChoiceV,
}

impl View for TopicQuery {
    type V = TopicQueryV;

    open spec fn view(&self) -> TopicQueryV {
        TopicQueryV {
            topic0: self.topic0@,
            topic1: self.topic1@,
            topic2: self.topic2@,
            topic3: self.topic3@,
        }
    }
}

impl TopicQuery {
    /// The query that matches every record.
    pub fn any() -> (r: TopicQuery)
        ensures
            r@.topic0 is Any,
            r@.topic1 is Any,
            r@.topic2 is Any,
            r@.topic3 is Any,
    {
        TopicQuery {
            topic0: TopicChoice::Any,
            topic1: TopicChoice::Any,
            topic2: TopicChoice::Any,
            topic3: TopicChoice::Any,
        }
    }

    /// Returns the disjunction of the two queries: it filters for
    /// everything that matches at least one of the two in every topic.
    pub fn or(self, other: TopicQuery) -> (r: TopicQuery)
        ensures
            r@.topic0 == spec_choice_or(self@.topic0, other@.topic0),
            r@.topic1 == spec_choice_or(self@.topic1, other@.topic1),
            r@.topic2 == spec_choice_or(self@.topic2, other@.topic2),
            r@.topic3 == spec_choice_or(self@.topic3, other@.topic3),
    {
        TopicQuery {
            topic0: self.topic0.or(other.topic0),
            topic1: self.topic1.or(other.topic1),
            topic2: self.topic2.or(other.topic2),
            topic3: self.topic3.or(other.topic3),
        }
    }
}

} // verus!
