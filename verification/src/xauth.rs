//! The Xauthority file: a list of entries, each a two-byte family followed by
//! four fields, each field a big-endian two-byte length and that many bytes.
use vstd::prelude::*;

use crate::text::{ascii, ascii_bytes, decimal, decimal_text, same_bytes};

verus! {

/// One entry of an Xauthority file.
#[verifier::ext_equal]
pub struct AuthEntry {
    pub family: int,
    pub address: Seq<u8>,
    pub number: Seq<u8>,
    pub name: Seq<u8>,
    pub data: Seq<u8>,
}

/// The number that two bytes stand for, the high one first.
pub open spec fn be16(hi: u8, lo: u8) -> int {
    hi * 256 + lo
}

/// The field that starts at `pos`, unless the file ends inside it.
pub open spec fn field_at(buf: Seq<u8>, pos: nat) -> Option<Seq<u8>> {
    let start = pos as int + 2;
    if start <= buf.len() && start + be16(buf[start - 2], buf[start - 1]) <= buf.len() {
        Some(buf.subrange(start, start + be16(buf[start - 2], buf[start - 1])))
    } else {
        None
    }
}

/// The entry that starts at `pos`, unless the file ends inside it.
pub open spec fn entry_at(buf: Seq<u8>, pos: nat) -> Option<AuthEntry> {
    match field_at(buf, pos + 2) {
        None => None,
        Some(address) => match field_at(buf, pos + 4 + address.len()) {
            None => None,
            Some(number) => match field_at(buf, pos + 6 + address.len() + number.len()) {
                None => None,
                Some(name) => match field_at(
                    buf,
                    pos + 8 + address.len() + number.len() + name.len(),
                ) {
                    None => None,
                    Some(data) => Some(
                        AuthEntry {
                            family: be16(buf[pos as int], buf[pos as int + 1]),
                            address,
                            number,
                            name,
                            data,
                        },
                    ),
                },
            },
        },
    }
}

impl AuthEntry {
    /// Bytes that the entry takes in a file.
    pub open spec fn size(self) -> nat {
        10 + self.address.len() + self.number.len() + self.name.len() + self.data.len()
    }

    /// The entry holds a cookie of the only kind that is understood.
    pub open spec fn is_cookie(self) -> bool {
        self.name == ascii("MIT-MAGIC-COOKIE-1"@)
    }

    /// Each part fits the two bytes that describe it.
    pub open spec fn encodable(self) -> bool {
        &&& 0 <= self.family < 0x10000
        &&& self.address.len() < 0x10000
        &&& self.number.len() < 0x10000
        &&& self.name.len() < 0x10000
        &&& self.data.len() < 0x10000
    }
}

/// The whole entries from `pos` on, up to the first that the file ends in.
pub open spec fn entries(buf: Seq<u8>, pos: nat) -> Seq<AuthEntry>
    decreases buf.len() - pos,
{
    if pos + 2 > buf.len() {
        Seq::empty()
    } else {
        match entry_at(buf, pos) {
            None => Seq::empty(),
            Some(e) => seq![e] + entries(buf, pos + e.size()),
        }
    }
}

/// From `pos` on, the file does not end inside an entry. A single byte left
/// over at the end does no harm.
pub open spec fn intact(buf: Seq<u8>, pos: nat) -> bool
    decreases buf.len() - pos,
{
    pos + 2 > buf.len() || match entry_at(buf, pos) {
        None => false,
        Some(e) => intact(buf, pos + e.size()),
    }
}

/// The first entry with the given property.
pub open spec fn first_where(es: Seq<AuthEntry>, p: spec_fn(AuthEntry) -> bool) -> Option<AuthEntry>
    decreases es.len(),
{
    if es.len() == 0 {
        None
    } else if p(es[0]) {
        Some(es[0])
    } else {
        first_where(es.drop_first(), p)
    }
}

/// The entry is a cookie for exactly this display.
pub open spec fn is_cookie_for(display: nat) -> spec_fn(AuthEntry) -> bool {
    |e: AuthEntry| e.is_cookie() && e.number == ascii(decimal(display))
}

/// The entry is a cookie for whatever display.
pub open spec fn is_any_cookie() -> spec_fn(AuthEntry) -> bool {
    |e: AuthEntry| e.is_cookie()
}

/// The entry to use for a display: the first cookie that names the display;
/// failing that, the first cookie, provided that the file is intact.
pub open spec fn chosen_entry(buf: Seq<u8>, display: nat) -> Option<AuthEntry> {
    match first_where(entries(buf, 0), is_cookie_for(display)) {
        Some(e) => Some(e),
        None => if intact(buf, 0) {
            first_where(entries(buf, 0), is_any_cookie())
        } else {
            None
        },
    }
}

/// Where the bytes of the field at `pos` start and end.
fn field_range(buf: &[u8], pos: usize) -> (range: Option<(usize, usize)>)
    requires
        pos <= buf@.len(),
    ensures
        match range {
            Some((lo, hi)) => {
                &&& lo == pos + 2
                &&& lo <= hi <= buf@.len()
                &&& field_at(buf@, pos as nat) == Some(buf@.subrange(lo as int, hi as int))
            },
            None => field_at(buf@, pos as nat) is None,
        },
{
    let len: usize = buf.len();
    if len - pos < 2 {
        return None;
    }
    let n: usize = buf[pos] as usize * 256 + buf[pos + 1] as usize;
    if len - pos - 2 < n {
        return None;
    }
    Some((pos + 2, pos + 2 + n))
}

/// Name and data of the cookie in the Xauthority file `buf` to use for
/// `display`.
pub fn read_cookie(buf: &[u8], display: u32) -> (cookie: Option<(Vec<u8>, Vec<u8>)>)
    ensures
        match cookie {
            Some((name, data)) => {
                &&& chosen_entry(buf@, display as nat) is Some
                &&& name@ == chosen_entry(buf@, display as nat)->0.name
                &&& data@ == chosen_entry(buf@, display as nat)->0.data
            },
            None => chosen_entry(buf@, display as nat) is None,
        },
{
    proof {
        reveal_strlit("MIT-MAGIC-COOKIE-1");
        crate::text::law_decimal_value(display as nat);
    }
    let magic = ascii_bytes("MIT-MAGIC-COOKIE-1");
    let text = decimal_text(display);
    assert forall|i: int| 0 <= i < text@.len() implies '\0' <= #[trigger] text@[i] <= '\u{7f}' by {
        assert(crate::text::is_digit(decimal(display as nat)[i]));
    }
    let want = ascii_bytes(text.as_str());
    let ghost exact = is_cookie_for(display as nat);
    let ghost any = is_any_cookie();
    let len: usize = buf.len();
    let mut pos: usize = 0;
    let mut fallback: Option<(Vec<u8>, Vec<u8>)> = None;
    while len - pos >= 2
        invariant
            pos <= len,
            len == buf@.len(),
            magic@ == ascii("MIT-MAGIC-COOKIE-1"@),
            want@ == ascii(decimal(display as nat)),
            exact == is_cookie_for(display as nat),
            any == is_any_cookie(),
            first_where(entries(buf@, 0), exact) == first_where(entries(buf@, pos as nat), exact),
            intact(buf@, 0) == intact(buf@, pos as nat),
            match fallback {
                Some((name, data)) => {
                    &&& first_where(entries(buf@, 0), any) is Some
                    &&& name@ == first_where(entries(buf@, 0), any)->0.name
                    &&& data@ == first_where(entries(buf@, 0), any)->0.data
                },
                None => first_where(entries(buf@, 0), any) == first_where(
                    entries(buf@, pos as nat),
                    any,
                ),
            },
        decreases len - pos,
    {
        let (_, address_end) = match field_range(buf, pos + 2) {
            Some(r) => r,
            None => return None,
        };
        let (number_start, number_end) = match field_range(buf, address_end) {
            Some(r) => r,
            None => return None,
        };
        let (name_start, name_end) = match field_range(buf, number_end) {
            Some(r) => r,
            None => return None,
        };
        let (data_start, data_end) = match field_range(buf, name_end) {
            Some(r) => r,
            None => return None,
        };
        let ghost e = entry_at(buf@, pos as nat)->0;
        assert(entry_at(buf@, pos as nat) is Some && pos + e.size() == data_end);
        assert(entries(buf@, pos as nat)[0] == e);
        assert(entries(buf@, pos as nat).drop_first() =~= entries(buf@, data_end as nat));
        pos = data_end;
        let name = vstd::slice::slice_subrange(buf, name_start, name_end);
        if !same_bytes(name, magic) {
            continue;
        }
        let number = vstd::slice::slice_subrange(buf, number_start, number_end);
        let data = vstd::slice::slice_subrange(buf, data_start, data_end);
        let found = (vstd::slice::slice_to_vec(name), vstd::slice::slice_to_vec(data));
        if same_bytes(number, want) {
            return Some(found);
        }
        if fallback.is_none() {
            fallback = Some(found);
        }
    }
    fallback
}

/// The two bytes of a number, the high one first.
pub open spec fn encoded16(n: int) -> Seq<u8> {
    seq![(n / 256) as u8, (n % 256) as u8]
}

/// A field as it stands in a file.
pub open spec fn encoded_field(f: Seq<u8>) -> Seq<u8> {
    encoded16(f.len() as int) + f
}

/// An entry as it stands in a file.
pub open spec fn encoded_entry(e: AuthEntry) -> Seq<u8> {
    encoded16(e.family) + encoded_field(e.address) + encoded_field(e.number) + encoded_field(e.name)
        + encoded_field(e.data)
}

/// A file made of the given entries.
pub open spec fn encoded(es: Seq<AuthEntry>) -> Seq<u8>
    decreases es.len(),
{
    if es.len() == 0 {
        Seq::empty()
    } else {
        encoded_entry(es[0]) + encoded(es.drop_first())
    }
}

proof fn lemma_field_round_trip(buf: Seq<u8>, pos: nat, f: Seq<u8>)
    requires
        f.len() < 0x10000,
        pos + 2 + f.len() <= buf.len(),
        buf.subrange(pos as int, pos as int + 2 + f.len()) == encoded_field(f),
    ensures
        field_at(buf, pos) == Some(f),
{
    let p = pos as int;
    let s = buf.subrange(p, p + 2 + f.len());
    assert(buf[p] == s[0] && buf[p + 1] == s[1]);
    assert(be16(buf[p], buf[p + 1]) == f.len());
    assert forall|i: int| 0 <= i < f.len() implies buf.subrange(p + 2, p + 2 + f.len())[i] == f[i] by {
        assert(s[i + 2] == f[i]);
    }
    assert(buf.subrange(p + 2, p + 2 + f.len()) =~= f);
}

/// The part of a sequence that follows a common start.
proof fn lemma_part<T>(buf: Seq<T>, at: int, a: Seq<T>, b: Seq<T>)
    requires
        0 <= at,
        at + a.len() + b.len() <= buf.len(),
        buf.subrange(at, at + a.len() + b.len()) == a + b,
    ensures
        buf.subrange(at, at + a.len()) == a,
        buf.subrange(at + a.len(), at + a.len() + b.len()) == b,
{
    let s = buf.subrange(at, at + a.len() + b.len());
    assert(buf.subrange(at, at + a.len()) =~= s.subrange(0, a.len() as int));
    assert(s.subrange(0, a.len() as int) =~= a);
    assert(buf.subrange(at + a.len(), at + a.len() + b.len()) =~= s.subrange(
        a.len() as int,
        s.len() as int,
    ));
    assert(s.subrange(a.len() as int, s.len() as int) =~= b);
}

proof fn lemma_entry_round_trip(buf: Seq<u8>, pos: nat, e: AuthEntry)
    requires
        e.encodable(),
        pos + e.size() <= buf.len(),
        buf.subrange(pos as int, pos as int + e.size()) == encoded_entry(e),
    ensures
        entry_at(buf, pos) == Some(e),
{
    let h = encoded16(e.family);
    let fa = encoded_field(e.address);
    let fn_ = encoded_field(e.number);
    let fm = encoded_field(e.name);
    let fd = encoded_field(e.data);
    let p = pos as int;
    lemma_part(buf, p, h + fa + fn_ + fm, fd);
    lemma_part(buf, p, h + fa + fn_, fm);
    lemma_part(buf, p, h + fa, fn_);
    lemma_part(buf, p, h, fa);
    assert(buf[p] == buf.subrange(p, p + 2)[0] && buf[p + 1] == buf.subrange(p, p + 2)[1]);
    assert(be16(buf[p], buf[p + 1]) == e.family);
    lemma_field_round_trip(buf, pos + 2, e.address);
    lemma_field_round_trip(buf, pos + 4 + e.address.len(), e.number);
    lemma_field_round_trip(buf, pos + 6 + e.address.len() + e.number.len(), e.name);
    lemma_field_round_trip(
        buf,
        pos + 8 + e.address.len() + e.number.len() + e.name.len(),
        e.data,
    );
}

proof fn lemma_entries_after(buf: Seq<u8>, pos: nat, es: Seq<AuthEntry>)
    requires
        forall|i: int| 0 <= i < es.len() ==> (#[trigger] es[i]).encodable(),
        pos + encoded(es).len() == buf.len(),
        buf.subrange(pos as int, buf.len() as int) == encoded(es),
    ensures
        entries(buf, pos) == es,
        intact(buf, pos),
    decreases es.len(),
{
    if es.len() == 0 {
        assert(entries(buf, pos) =~= es);
    } else {
        let e = es[0];
        let rest = es.drop_first();
        assert(encoded_entry(e).len() == e.size());
        lemma_part(buf, pos as int, encoded_entry(e), encoded(rest));
        lemma_entry_round_trip(buf, pos, e);
        lemma_entries_after(buf, pos + e.size(), rest);
        assert(seq![e] + rest =~= es);
    }
}

/// Reading a file gives back the entries that it was made of.
pub proof fn law_entries_round_trip(es: Seq<AuthEntry>)
    requires
        forall|i: int| 0 <= i < es.len() ==> (#[trigger] es[i]).encodable(),
    ensures
        entries(encoded(es), 0) == es,
        intact(encoded(es), 0),
{
    let buf = encoded(es);
    assert(buf.subrange(0, buf.len() as int) =~= buf);
    lemma_entries_after(buf, 0, es);
}

/// An entry that is read stands in the file byte for byte.
proof fn lemma_entry_stands(buf: Seq<u8>, pos: nat, e: AuthEntry)
    requires
        pos + 2 <= buf.len(),
        entry_at(buf, pos) == Some(e),
    ensures
        e.encodable(),
        pos + e.size() <= buf.len(),
        buf.subrange(pos as int, pos as int + e.size()) == encoded_entry(e),
{
    let p = pos as int;
    let p1 = p + 2;
    let p2 = p1 + 2 + e.address.len();
    let p3 = p2 + 2 + e.number.len();
    let p4 = p3 + 2 + e.name.len();
    lemma_field_stands(buf, p1 as nat, e.address);
    lemma_field_stands(buf, p2 as nat, e.number);
    lemma_field_stands(buf, p3 as nat, e.name);
    lemma_field_stands(buf, p4 as nat, e.data);
    let end = p + e.size();
    assert(buf.subrange(p, p1) =~= encoded16(e.family));
    assert(buf.subrange(p, end) =~= buf.subrange(p, p1) + buf.subrange(p1, p2) + buf.subrange(
        p2,
        p3,
    ) + buf.subrange(p3, p4) + buf.subrange(p4, end));
}

proof fn lemma_field_stands(buf: Seq<u8>, pos: nat, f: Seq<u8>)
    requires
        field_at(buf, pos) == Some(f),
    ensures
        f.len() < 0x10000,
        pos + 2 + f.len() <= buf.len(),
        buf.subrange(pos as int, pos as int + 2 + f.len()) == encoded_field(f),
{
    let p = pos as int;
    assert(f.len() == be16(buf[p], buf[p + 1]));
    let whole = buf.subrange(p, p + 2 + f.len());
    assert forall|i: int| 0 <= i < whole.len() implies whole[i] == encoded_field(f)[i] by {
        if i >= 2 {
            assert(f[i - 2] == buf[p + i]);
        }
    }
    assert(whole =~= encoded_field(f));
}

/// Each entry takes the two bytes of its family, the high one first, and then
/// four fields: the two bytes of a length, the high one first, and so many bytes.
/// A file is one entry after the other.
pub proof fn law_file_layout(e: AuthEntry, es: Seq<AuthEntry>)
    ensures
        encoded_entry(e) == seq![(e.family / 256) as u8, (e.family % 256) as u8] + seq![
            (e.address.len() / 256) as u8,
            (e.address.len() % 256) as u8,
        ] + e.address + seq![(e.number.len() / 256) as u8, (e.number.len() % 256) as u8] + e.number
            + seq![(e.name.len() / 256) as u8, (e.name.len() % 256) as u8] + e.name + seq![
            (e.data.len() / 256) as u8,
            (e.data.len() % 256) as u8,
        ] + e.data,
        encoded(Seq::<AuthEntry>::empty()) == Seq::<u8>::empty(),
        encoded(seq![e] + es) == encoded_entry(e) + encoded(es),
        e.encodable() <==> 0 <= e.family <= 65535 && e.address.len() <= 65535 && e.number.len()
            <= 65535 && e.name.len() <= 65535 && e.data.len() <= 65535,
{
    assert((seq![e] + es).drop_first() =~= es);
    assert(encoded_entry(e) =~= seq![(e.family / 256) as u8, (e.family % 256) as u8] + seq![
        (e.address.len() / 256) as u8,
        (e.address.len() % 256) as u8,
    ] + e.address + seq![(e.number.len() / 256) as u8, (e.number.len() % 256) as u8] + e.number
        + seq![(e.name.len() / 256) as u8, (e.name.len() % 256) as u8] + e.name + seq![
        (e.data.len() / 256) as u8,
        (e.data.len() % 256) as u8,
    ] + e.data);
}

/// The tail of a file is not a whole entry, nor does it start with one.
pub open spec fn broken_off(tail: Seq<u8>) -> bool {
    forall|e: AuthEntry|
        e.encodable() ==> !(#[trigger] encoded_entry(e)).is_prefix_of(tail)
}

proof fn lemma_entries_before(buf: Seq<u8>, pos: nat, es: Seq<AuthEntry>, tail: Seq<u8>)
    requires
        forall|i: int| 0 <= i < es.len() ==> (#[trigger] es[i]).encodable(),
        broken_off(tail),
        pos + encoded(es).len() + tail.len() == buf.len(),
        buf.subrange(pos as int, buf.len() as int) == encoded(es) + tail,
    ensures
        entries(buf, pos) == es,
        intact(buf, pos) == (tail.len() < 2),
    decreases es.len(),
{
    if es.len() == 0 {
        assert(encoded(es) + tail =~= tail);
        if pos + 2 <= buf.len() {
            if entry_at(buf, pos) is Some {
                let e = entry_at(buf, pos)->0;
                lemma_entry_stands(buf, pos, e);
                assert(tail.subrange(0, e.size() as int) =~= buf.subrange(
                    pos as int,
                    pos as int + e.size(),
                ));
                assert(encoded_entry(e).is_prefix_of(tail));
            }
        }
        assert(entries(buf, pos) =~= es);
    } else {
        let e = es[0];
        let rest = es.drop_first();
        assert(encoded_entry(e).len() == e.size());
        assert(encoded(es) + tail =~= encoded_entry(e) + (encoded(rest) + tail));
        lemma_part(buf, pos as int, encoded_entry(e), encoded(rest) + tail);
        lemma_entry_round_trip(buf, pos, e);
        lemma_entries_before(buf, pos + e.size(), rest, tail);
        assert(seq![e] + rest =~= es);
    }
}

/// A file of whole entries and perhaps a tail that is none is read as these
/// entries, and counts as intact if the tail is no longer than a byte.
pub proof fn law_entries_and_tail(es: Seq<AuthEntry>, tail: Seq<u8>)
    requires
        forall|i: int| 0 <= i < es.len() ==> (#[trigger] es[i]).encodable(),
        forall|e: AuthEntry|
            e.encodable() ==> !(#[trigger] encoded_entry(e)).is_prefix_of(tail),
    ensures
        entries(encoded(es) + tail, 0) == es,
        intact(encoded(es) + tail, 0) <==> tail.len() <= 1,
{
    let buf = encoded(es) + tail;
    assert(buf.subrange(0, buf.len() as int) =~= buf);
    lemma_entries_before(buf, 0, es, tail);
}

/// Every file is whole entries and then a tail that is none.
pub proof fn law_every_file(buf: Seq<u8>)
    ensures
        exists|es: Seq<AuthEntry>, tail: Seq<u8>|
            {
                &&& buf == #[trigger] (encoded(es) + tail)
                &&& forall|i: int| 0 <= i < es.len() ==> (#[trigger] es[i]).encodable()
                &&& broken_off(tail)
            },
{
    let (es, tail) = lemma_file_from(buf, 0);
    assert(buf.subrange(0, buf.len() as int) =~= buf);
    assert(buf == encoded(es) + tail);
}

proof fn lemma_file_from(buf: Seq<u8>, pos: nat) -> (r: (Seq<AuthEntry>, Seq<u8>))
    requires
        pos <= buf.len(),
    ensures
        buf.subrange(pos as int, buf.len() as int) == encoded(r.0) + r.1,
        forall|i: int| 0 <= i < r.0.len() ==> (#[trigger] r.0[i]).encodable(),
        broken_off(r.1),
    decreases buf.len() - pos,
{
    let here = buf.subrange(pos as int, buf.len() as int);
    if pos + 2 <= buf.len() && entry_at(buf, pos) is Some {
        let e = entry_at(buf, pos)->0;
        lemma_entry_stands(buf, pos, e);
        let (rest, tail) = lemma_file_from(buf, pos + e.size());
        let es = seq![e] + rest;
        assert(es.drop_first() =~= rest);
        assert(here =~= buf.subrange(pos as int, pos as int + e.size()) + buf.subrange(
            pos as int + e.size(),
            buf.len() as int,
        ));
        assert(encoded_entry(e) + (encoded(rest) + tail) =~= encoded(es) + tail);
        assert forall|i: int| 0 <= i < es.len() implies (#[trigger] es[i]).encodable() by {
            if i > 0 {
                assert(es[i] == rest[i - 1]);
            }
        }
        (es, tail)
    } else {
        assert forall|e: AuthEntry| e.encodable() implies !(#[trigger] encoded_entry(
            e,
        )).is_prefix_of(here) by {
            if encoded_entry(e).is_prefix_of(here) {
                assert(encoded_entry(e).len() == e.size());
                assert(buf.subrange(pos as int, pos as int + e.size()) =~= here.subrange(
                    0,
                    e.size() as int,
                ));
                lemma_entry_round_trip(buf, pos, e);
            }
        }
        assert(encoded(Seq::<AuthEntry>::empty()) + here =~= here);
        (Seq::empty(), here)
    }
}

/// The entry used for a display is the first whose name is the cookie's and
/// whose number is the display's in decimal, byte for byte, whatever tail the
/// file has.
pub proof fn law_cookie_found_before_tail(es: Seq<AuthEntry>, tail: Seq<u8>, display: nat, k: int)
    requires
        forall|i: int| 0 <= i < es.len() ==> (#[trigger] es[i]).encodable(),
        forall|e: AuthEntry|
            e.encodable() ==> !(#[trigger] encoded_entry(e)).is_prefix_of(tail),
        0 <= k < es.len(),
        es[k].name == ascii("MIT-MAGIC-COOKIE-1"@),
        es[k].number == ascii(decimal(display)),
        forall|i: int|
            0 <= i < k ==> (#[trigger] es[i]).name != ascii("MIT-MAGIC-COOKIE-1"@) || es[i].number
                != ascii(decimal(display)),
    ensures
        chosen_entry(encoded(es) + tail, display) == Some(es[k]),
{
    law_entries_and_tail(es, tail);
    assert forall|i: int| 0 <= i < k implies !is_cookie_for(display)(#[trigger] es[i]) by {
        assert(es[i].name != ascii("MIT-MAGIC-COOKIE-1"@) || es[i].number != ascii(
            decimal(display),
        ));
    }
    lemma_first_where(es, is_cookie_for(display), k);
}

/// Where no cookie has the display's number, the first cookie of an intact file
/// serves instead, whatever its number. A file that ends inside an entry, or
/// that holds no cookie, gives none.
pub proof fn law_first_cookie_serves_before_tail(es: Seq<AuthEntry>, tail: Seq<u8>, display: nat, k: int)
    requires
        forall|i: int| 0 <= i < es.len() ==> (#[trigger] es[i]).encodable(),
        forall|e: AuthEntry|
            e.encodable() ==> !(#[trigger] encoded_entry(e)).is_prefix_of(tail),
        forall|i: int|
            0 <= i < es.len() ==> (#[trigger] es[i]).name != ascii("MIT-MAGIC-COOKIE-1"@)
                || es[i].number != ascii(decimal(display)),
        0 <= k <= es.len(),
        k < es.len() ==> es[k].name == ascii("MIT-MAGIC-COOKIE-1"@),
        forall|i: int| 0 <= i < k ==> (#[trigger] es[i]).name != ascii("MIT-MAGIC-COOKIE-1"@),
    ensures
        chosen_entry(encoded(es) + tail, display) == if k < es.len() && tail.len() <= 1 {
            Some(es[k])
        } else {
            None
        },
{
    law_entries_and_tail(es, tail);
    assert forall|i: int| 0 <= i < es.len() implies !is_cookie_for(display)(#[trigger] es[i]) by {
        assert(es[i].name != ascii("MIT-MAGIC-COOKIE-1"@) || es[i].number != ascii(
            decimal(display),
        ));
    }
    lemma_none_where(es, is_cookie_for(display));
    assert forall|i: int| 0 <= i < k implies !is_any_cookie()(#[trigger] es[i]) by {
        assert(es[i].name != ascii("MIT-MAGIC-COOKIE-1"@));
    }
    if k < es.len() {
        lemma_first_where(es, is_any_cookie(), k);
    } else {
        lemma_none_where(es, is_any_cookie());
    }
}

proof fn lemma_no_tail(es: Seq<AuthEntry>)
    ensures
        encoded(es) + Seq::<u8>::empty() == encoded(es),
        broken_off(Seq::<u8>::empty()),
{
    assert(encoded(es) + Seq::<u8>::empty() =~= encoded(es));
    assert forall|e: AuthEntry| e.encodable() implies !(#[trigger] encoded_entry(e)).is_prefix_of(
        Seq::<u8>::empty(),
    ) by {
        assert(encoded_entry(e).len() == e.size());
    }
}

/// In a file made of the given entries, the cookie for a display is found
/// wherever it stands: the first whose number is the display's in decimal, byte
/// for byte.
pub proof fn law_cookie_found(es: Seq<AuthEntry>, display: nat, k: int)
    requires
        forall|i: int| 0 <= i < es.len() ==> (#[trigger] es[i]).encodable(),
        0 <= k < es.len(),
        es[k].name == ascii("MIT-MAGIC-COOKIE-1"@),
        es[k].number == ascii(decimal(display)),
        forall|i: int|
            0 <= i < k ==> (#[trigger] es[i]).name != ascii("MIT-MAGIC-COOKIE-1"@) || es[i].number
                != ascii(decimal(display)),
    ensures
        chosen_entry(encoded(es), display) == Some(es[k]),
{
    lemma_no_tail(es);
    law_cookie_found_before_tail(es, Seq::empty(), display, k);
}

/// In a file made of the given entries, none of them a cookie for the display,
/// the first cookie serves instead.
pub proof fn law_first_cookie_serves(es: Seq<AuthEntry>, display: nat, k: int)
    requires
        forall|i: int| 0 <= i < es.len() ==> (#[trigger] es[i]).encodable(),
        forall|i: int|
            0 <= i < es.len() ==> (#[trigger] es[i]).name != ascii("MIT-MAGIC-COOKIE-1"@)
                || es[i].number != ascii(decimal(display)),
        0 <= k < es.len(),
        es[k].name == ascii("MIT-MAGIC-COOKIE-1"@),
        forall|i: int| 0 <= i < k ==> (#[trigger] es[i]).name != ascii("MIT-MAGIC-COOKIE-1"@),
    ensures
        chosen_entry(encoded(es), display) == Some(es[k]),
{
    lemma_no_tail(es);
    law_first_cookie_serves_before_tail(es, Seq::empty(), display, k);
}

proof fn lemma_none_where(es: Seq<AuthEntry>, p: spec_fn(AuthEntry) -> bool)
    requires
        forall|i: int| 0 <= i < es.len() ==> !p(#[trigger] es[i]),
    ensures
        first_where(es, p) is None,
    decreases es.len(),
{
    if es.len() > 0 {
        assert(!p(es[0]));
        assert forall|i: int| 0 <= i < es.len() - 1 implies !p(#[trigger] es.drop_first()[i]) by {
            assert(!p(es[i + 1]));
        }
        lemma_none_where(es.drop_first(), p);
    }
}

proof fn lemma_first_where(es: Seq<AuthEntry>, p: spec_fn(AuthEntry) -> bool, k: int)
    requires
        0 <= k < es.len(),
        p(es[k]),
        forall|i: int| 0 <= i < k ==> !p(#[trigger] es[i]),
    ensures
        first_where(es, p) == Some(es[k]),
    decreases k,
{
    if k > 0 {
        assert(!p(es[0]));
        assert forall|i: int| 0 <= i < k - 1 implies !p(#[trigger] es.drop_first()[i]) by {
            assert(!p(es[i + 1]));
        }
        lemma_first_where(es.drop_first(), p, k - 1);
    }
}

} // verus!
