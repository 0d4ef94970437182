//! The exception table: trap codes by exact code offset.

use crate::bytes::{
    counted_bytes, le_usize, lemma_counted_round_trip, lemma_list_err_stays,
    lemma_usize_round_trip, parse_count, parse_counted, parse_list, parse_usize, read_count,
    read_usize, rest, write_count, write_usize, list_bytes, CacheError,
};
use crate::keyed::{
    keyed_find, keyed_insert, keyed_map, keys_ascending, lemma_ascending_unique, lemma_keyed_at,
};
use crate::values::{code_tag, lemma_code_round_trip, parse_code, read_code, ExceptionCode};
use vstd::prelude::*;

verus! {

/// Maps offsets in generated machine code to the trap raised there.
#[derive(Debug)]
pub struct ExceptionTable {
    /// The entries, in strictly ascending offset order.
    pub offset_to_code: Vec<(usize, ExceptionCode)>,
}

impl View for ExceptionTable {
    type V = Map<usize, ExceptionCode>;

    open spec fn view(&self) -> Map<usize, ExceptionCode> {
        keyed_map(self.offset_to_code@)
    }
}

/// The encoding of one entry: the offset, then the code's discriminant.
pub open spec fn entry_bytes(e: (usize, ExceptionCode)) -> Seq<u8> {
    le_usize(e.0) + seq![code_tag(e.1)]
}

/// Reads one entry at the front of `s`.
pub open spec fn parse_entry(s: Seq<u8>) -> Result<((usize, ExceptionCode), nat), CacheError> {
    match parse_usize(s) {
        Ok((k, _)) => match parse_code(s.subrange(8, s.len() as int)) {
            Ok((c, _)) => Ok(((k, c), 9)),
            Err(e) => Err(e),
        },
        Err(e) => Err(e),
    }
}

pub open spec fn entry_enc() -> spec_fn((usize, ExceptionCode)) -> Seq<u8> {
    |e: (usize, ExceptionCode)| entry_bytes(e)
}

pub open spec fn entry_dec() -> spec_fn(Seq<u8>) -> Result<((usize, ExceptionCode), nat), CacheError> {
    |s: Seq<u8>| parse_entry(s)
}

/// The encoding of a table with entries `s`: a count, then the entries in order.
pub open spec fn table_bytes(s: Seq<(usize, ExceptionCode)>) -> Seq<u8> {
    counted_bytes(s, entry_enc())
}

/// Reads a table at the front of `s`; entries out of ascending order are refused.
pub open spec fn parse_table(s: Seq<u8>) -> Result<(Seq<(usize, ExceptionCode)>, nat), CacheError> {
    match parse_counted(s, entry_dec()) {
        Ok((es, n)) => if keys_ascending(es) {
            Ok((es, n))
        } else {
            Err(CacheError::UnorderedKeys)
        },
        Err(e) => Err(e),
    }
}

impl ExceptionTable {
    /// Entries ascend by offset.
    pub open spec fn wf(&self) -> bool {
        keys_ascending(self.offset_to_code@)
    }

    /// An empty table.
    pub fn new() -> (r: ExceptionTable)
        ensures
            r.wf(),
            r@ == Map::<usize, ExceptionCode>::empty(),
    {
        let r = ExceptionTable { offset_to_code: Vec::new() };
        assert(r@ =~= Map::<usize, ExceptionCode>::empty());
        r
    }

    /// Number of entries.
    pub fn len(&self) -> (r: usize)
        requires
            self.wf(),
        ensures
            r == self.offset_to_code@.len(),
    {
        self.offset_to_code.len()
    }

    /// Records that the instruction at `offset` raises `code`.
    pub fn insert(&mut self, offset: usize, code: ExceptionCode)
        requires
            old(self).wf(),
        ensures
            final(self).wf(),
            final(self)@ == old(self)@.insert(offset, code),
    {
        keyed_insert(&mut self.offset_to_code, offset, code);
    }

    /// The trap code recorded for exactly `offset`.
    pub fn lookup(&self, offset: usize) -> (r: Result<ExceptionCode, CacheError>)
        requires
            self.wf(),
        ensures
            self@.contains_key(offset) ==> r == Ok::<ExceptionCode, CacheError>(self@[offset]),
            !self@.contains_key(offset) ==> r == Err::<ExceptionCode, CacheError>(
                CacheError::ExceptionLookupMiss,
            ),
    {
        match keyed_find(&self.offset_to_code, offset) {
            Some(i) => {
                proof {
                    lemma_keyed_at(self.offset_to_code@, i as int);
                }
                Ok(self.offset_to_code[i].1)
            },
            None => Err(CacheError::ExceptionLookupMiss),
        }
    }

    /// Appends the encoding of this table: a count, then each offset and
    /// code in ascending offset order.
    pub fn encode(&self, out: &mut Vec<u8>)
        requires
            self.wf(),
            self.offset_to_code@.len() <= u32::MAX,
        ensures
            final(out)@ == old(out)@ + table_bytes(self.offset_to_code@),
    {
        let es = &self.offset_to_code;
        write_count(out, es.len());
        let ghost start = out@;
        let mut i: usize = 0;
        while i < es.len()
            invariant
                i <= es@.len(),
                out@ == start + list_bytes(es@.take(i as int), entry_enc()),
            decreases es@.len() - i,
        {
            let (k, c) = es[i];
            write_usize(out, k);
            out.push(c.tag());
            proof {
                let t = es@.take(i + 1);
                assert(t.drop_last() =~= es@.take(i as int));
                assert(out@ =~= start + list_bytes(t, entry_enc()));
            }
            i = i + 1;
        }
        assert(es@.take(es@.len() as int) =~= es@);
    }

    /// Reads a table at `pos`, returning it with the position after it.
    pub fn decode(buf: &[u8], pos: usize) -> (r: Result<(ExceptionTable, usize), CacheError>)
        requires
            pos <= buf@.len(),
        ensures
            match parse_table(rest(buf@, pos as int)) {
                Ok((es, n)) => r matches Ok((t, p)) && t.offset_to_code@ == es && t.wf()
                    && es.len() <= u32::MAX && p == pos + n && p <= buf@.len(),
                Err(e) => r == Err::<(ExceptionTable, usize), CacheError>(e),
            },
    {
        let (n, p0) = match read_count(buf, pos) {
            Ok(x) => x,
            Err(e) => return Err(e),
        };
        let ghost s = rest(buf@, p0 as int);
        assert(rest(buf@, pos as int).subrange(4, rest(buf@, pos as int).len() as int) =~= s);
        let mut es: Vec<(usize, ExceptionCode)> = Vec::new();
        let mut p = p0;
        let mut i: usize = 0;
        while i < n
            invariant
                pos + 4 == p0,
                n <= u32::MAX,
                es@.len() == i,
                p0 <= p <= buf@.len(),
                i <= n,
                s == rest(buf@, p0 as int),
                s == rest(buf@, pos as int).subrange(4, rest(buf@, pos as int).len() as int),
                parse_count(rest(buf@, pos as int)) == Ok::<(usize, nat), CacheError>((n, 4)),
                parse_list(s, i as nat, entry_dec()) == Ok::<
                    (Seq<(usize, ExceptionCode)>, nat),
                    CacheError,
                >((es@, (p - p0) as nat)),
            decreases n - i,
        {
            let ghost k = (p - p0) as nat;
            let ghost q = rest(buf@, p as int);
            assert(s.subrange(k as int, s.len() as int) =~= q);
            let (off, p1) = match read_usize(buf, p) {
                Ok(x) => x,
                Err(e) => {
                    proof {
                        assert(parse_list(s, (i + 1) as nat, entry_dec()) == Err::<
                            (Seq<(usize, ExceptionCode)>, nat),
                            CacheError,
                        >(e));
                        lemma_list_err_stays(s, (i + 1) as nat, n as nat, entry_dec());
                    }
                    return Err(e);
                },
            };
            assert(q.subrange(8, q.len() as int) =~= rest(buf@, p1 as int));
            let (c, p2) = match read_code(buf, p1) {
                Ok(x) => x,
                Err(e) => {
                    proof {
                        assert(parse_list(s, (i + 1) as nat, entry_dec()) == Err::<
                            (Seq<(usize, ExceptionCode)>, nat),
                            CacheError,
                        >(e));
                        lemma_list_err_stays(s, (i + 1) as nat, n as nat, entry_dec());
                    }
                    return Err(e);
                },
            };
            es.push((off, c));
            p = p2;
            i = i + 1;
        }
        assert(parse_counted(rest(buf@, pos as int), entry_dec()) == Ok::<
            (Seq<(usize, ExceptionCode)>, nat),
            CacheError,
        >((es@, (p - pos) as nat)));
        let mut j: usize = 1;
        while j < es.len()
            invariant
                1 <= j,
                es@.len() <= u32::MAX,
                pos <= p <= buf@.len(),
                parse_counted(rest(buf@, pos as int), entry_dec()) == Ok::<
                    (Seq<(usize, ExceptionCode)>, nat),
                    CacheError,
                >((es@, (p - pos) as nat)),
                forall|a: int, b: int| 0 <= a < b < j && b < es@.len() ==> es@[a].0 < es@[b].0,
            decreases es@.len() - j,
        {
            if es[j - 1].0 >= es[j].0 {
                return Err(CacheError::UnorderedKeys);
            }
            assert forall|a: int, b: int| 0 <= a < b < j + 1 && b < es@.len() implies es@[a].0
                < es@[b].0 by {
                if b == j && a < j - 1 {
                    assert(es@[a].0 < es@[j - 1].0);
                }
            }
            j = j + 1;
        }
        Ok((ExceptionTable { offset_to_code: es }, p))
    }
}

/// An entry read back from its encoding is the one written.
pub proof fn lemma_entry_round_trip(e: (usize, ExceptionCode), tail: Seq<u8>)
    ensures
        parse_entry(entry_bytes(e) + tail) == Ok::<((usize, ExceptionCode), nat), CacheError>(
            (e, 9),
        ),
{
    let s = entry_bytes(e) + tail;
    assert(s =~= le_usize(e.0) + (seq![code_tag(e.1)] + tail));
    lemma_usize_round_trip(e.0, seq![code_tag(e.1)] + tail);
    assert(s.subrange(8, s.len() as int) =~= seq![code_tag(e.1)] + tail);
    lemma_code_round_trip(e.1, tail);
}

/// Decoding the encoding of a table gives back its entries.
pub proof fn lemma_table_round_trip(es: Seq<(usize, ExceptionCode)>, tail: Seq<u8>)
    requires
        es.len() <= u32::MAX,
        keys_ascending(es),
    ensures
        parse_table(table_bytes(es) + tail) == Ok::<(Seq<(usize, ExceptionCode)>, nat), CacheError>(
            (es, table_bytes(es).len()),
        ),
{
    assert forall|i: int, s: Seq<u8>| 0 <= i < es.len() implies #[trigger] entry_dec()(
        entry_enc()(es[i]) + s,
    ) == Ok::<((usize, ExceptionCode), nat), CacheError>((es[i], entry_enc()(es[i]).len())) by {
        lemma_entry_round_trip(es[i], s);
    }
    lemma_counted_round_trip(es, tail, entry_enc(), entry_dec());
}

/// The encoding depends on the table's contents alone: two tables that map
/// the same offsets to the same codes, however they were filled, encode to
/// the same bytes.
pub proof fn lemma_encoding_deterministic(a: ExceptionTable, b: ExceptionTable)
    requires
        a.wf(),
        b.wf(),
        a@ == b@,
    ensures
        table_bytes(a.offset_to_code@) == table_bytes(b.offset_to_code@),
{
    lemma_ascending_unique(a.offset_to_code@, b.offset_to_code@);
}

} // verus!
