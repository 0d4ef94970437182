//! A common shape for every encodable type: its model, its bytes, how bytes
//! are read back, and the proof that reading undoes writing. Lists, pairs and
//! optional values are encoded here once for every such type.

use crate::bytes::{
    counted_bytes, le_usize, lemma_counted_round_trip, lemma_list_err_stays,
    lemma_usize_round_trip, list_bytes, parse_counted, parse_list, parse_usize, read_usize,
    parse_count, parse_tag, read_count, read_tag, rest, write_count, write_usize, CacheError,
};
use crate::values::{
    info_bytes, lemma_info_round_trip, lemma_suspend_round_trip, lemma_value_round_trip,
    lemma_wasm_value_round_trip, parse_info, parse_suspend, parse_value, parse_wasm_value,
    read_info, read_suspend, read_value, read_wasm_value, suspend_bytes, value_bytes, value_fits,
    wasm_value_bytes, write_info, write_suspend, write_value, write_wasm_value, MachineValue,
    OffsetInfo, RegisterIndex, SuspendOffset, ValueModel, WasmAbstractValue,
};
use vstd::prelude::*;

verus! {

/// A type with a byte encoding that reads back to the same model.
pub trait Wire: Sized {
    type Model;

    /// The mathematical form of a value.
    spec fn wire_model(&self) -> Self::Model;

    /// The value meets the invariants that decoding checks, and its lists
    /// are short enough for a `u32` count.
    spec fn wire_ok(&self) -> bool;

    /// The model holds no list too long for a `u32` count and meets the
    /// invariants that decoding checks.
    spec fn model_fits(m: Self::Model) -> bool;

    /// The encoding of a model.
    spec fn model_bytes(m: Self::Model) -> Seq<u8>;

    /// Reads a model at the front of `s`, with the number of bytes used.
    spec fn parse_model(s: Seq<u8>) -> Result<(Self::Model, nat), CacheError>;

    /// Appends the encoding of this value.
    fn write(&self, out: &mut Vec<u8>)
        requires
            self.wire_ok(),
        ensures
            final(out)@ == old(out)@ + Self::model_bytes(self.wire_model()),
    ;

    /// Reads a value at `pos`, returning it with the position after it.
    fn read(buf: &[u8], pos: usize) -> (r: Result<(Self, usize), CacheError>)
        requires
            pos <= buf@.len(),
        ensures
            match Self::parse_model(rest(buf@, pos as int)) {
                Ok((m, n)) => r matches Ok((x, p)) && x.wire_model() == m && x.wire_ok() && p
                    == pos + n && p <= buf@.len(),
                Err(e) => r is Err && r == Err::<(Self, usize), CacheError>(e),
            },
    ;

    /// The model of a value fits.
    proof fn lemma_fits(x: &Self)
        requires
            x.wire_ok(),
        ensures
            Self::model_fits(x.wire_model()),
    ;

    /// Reading the encoding of a model gives it back.
    proof fn lemma_round_trip(m: Self::Model, tail: Seq<u8>)
        requires
            Self::model_fits(m),
        ensures
            Self::parse_model(Self::model_bytes(m) + tail) == Ok::<(Self::Model, nat), CacheError>(
                (m, Self::model_bytes(m).len()),
            ),
    ;
}

pub open spec fn wire_enc<T: Wire>() -> spec_fn(T::Model) -> Seq<u8> {
    |m: T::Model| T::model_bytes(m)
}

pub open spec fn wire_dec<T: Wire>() -> spec_fn(Seq<u8>) -> Result<(T::Model, nat), CacheError> {
    |s: Seq<u8>| T::parse_model(s)
}

/// The models of a list of values.
pub open spec fn wire_models<T: Wire>(s: Seq<T>) -> Seq<T::Model> {
    s.map_values(|x: T| x.wire_model())
}

/// The encoding of a list: a count, then the items.
pub open spec fn seq_bytes<T: Wire>(ms: Seq<T::Model>) -> Seq<u8> {
    counted_bytes(ms, wire_enc::<T>())
}

/// Reads a counted list.
pub open spec fn parse_seq<T: Wire>(s: Seq<u8>) -> Result<(Seq<T::Model>, nat), CacheError> {
    parse_counted(s, wire_dec::<T>())
}

/// The list is countable and every item fits.
pub open spec fn seq_fits<T: Wire>(ms: Seq<T::Model>) -> bool {
    &&& ms.len() <= u32::MAX
    &&& forall|i: int| 0 <= i < ms.len() ==> T::model_fits(#[trigger] ms[i])
}

/// Appends a counted list.
pub fn write_seq<T: Wire>(out: &mut Vec<u8>, xs: &Vec<T>)
    requires
        xs@.len() <= u32::MAX,
        forall|i: int| 0 <= i < xs@.len() ==> (#[trigger] xs@[i]).wire_ok(),
    ensures
        final(out)@ == old(out)@ + seq_bytes::<T>(wire_models(xs@)),
{
    write_count(out, xs.len());
    let ghost start = out@;
    let ghost ms = wire_models(xs@);
    let mut i: usize = 0;
    while i < xs.len()
        invariant
            i <= xs@.len(),
            forall|j: int| 0 <= j < xs@.len() ==> (#[trigger] xs@[j]).wire_ok(),
            ms == wire_models(xs@),
            out@ == start + list_bytes(ms.take(i as int), wire_enc::<T>()),
        decreases xs@.len() - i,
    {
        xs[i].write(out);
        proof {
            let t = ms.take(i + 1);
            assert(t.drop_last() =~= ms.take(i as int));
            assert(out@ =~= start + list_bytes(t, wire_enc::<T>()));
        }
        i = i + 1;
    }
    assert(ms.take(xs@.len() as int) =~= ms);
}

/// Reads a counted list at `pos`.
pub fn read_seq<T: Wire>(buf: &[u8], pos: usize) -> (r: Result<(Vec<T>, usize), CacheError>)
    requires
        pos <= buf@.len(),
    ensures
        match parse_seq::<T>(rest(buf@, pos as int)) {
            Ok((ms, n)) => r matches Ok((xs, p)) && wire_models(xs@) == ms && p == pos + n && p
                <= buf@.len() && xs@.len() <= u32::MAX && forall|i: int| 0 <= i < xs@.len() ==> (
                #[trigger] xs@[i]).wire_ok(),
            Err(e) => r == Err::<(Vec<T>, usize), CacheError>(e),
        },
{
    let (n, p0) = match read_count(buf, pos) {
        Ok(x) => x,
        Err(e) => return Err(e),
    };
    let ghost s = rest(buf@, p0 as int);
    assert(rest(buf@, pos as int).subrange(4, rest(buf@, pos as int).len() as int) =~= s);
    let mut xs: Vec<T> = Vec::new();
    assert(wire_models(xs@) =~= Seq::<T::Model>::empty());
    let mut p = p0;
    let mut i: usize = 0;
    while i < n
        invariant
            pos + 4 == p0,
            n <= u32::MAX,
            xs@.len() == i,
            p0 <= p <= buf@.len(),
            i <= n,
            s == rest(buf@, p0 as int),
            s == rest(buf@, pos as int).subrange(4, rest(buf@, pos as int).len() as int),
            parse_count(rest(buf@, pos as int)) == Ok::<(usize, nat), CacheError>((n, 4)),
            parse_list(s, i as nat, wire_dec::<T>()) == Ok::<(Seq<T::Model>, nat), CacheError>(
                (wire_models(xs@), (p - p0) as nat),
            ),
            forall|j: int| 0 <= j < xs@.len() ==> (#[trigger] xs@[j]).wire_ok(),
        decreases n - i,
    {
        let ghost k = (p - p0) as nat;
        assert(s.subrange(k as int, s.len() as int) =~= rest(buf@, p as int));
        let (x, p1) = match T::read(buf, p) {
            Ok(x) => x,
            Err(e) => {
                proof {
                    assert(parse_list(s, (i + 1) as nat, wire_dec::<T>()) == Err::<
                        (Seq<T::Model>, nat),
                        CacheError,
                    >(e));
                    lemma_list_err_stays(s, (i + 1) as nat, n as nat, wire_dec::<T>());
                }
                return Err(e);
            },
        };
        let ghost before = xs@;
        xs.push(x);
        assert(wire_models(xs@) =~= wire_models(before).push(x.wire_model()));
        p = p1;
        i = i + 1;
    }
    Ok((xs, p))
}

/// A list that fits reads back from its encoding.
pub proof fn lemma_seq_round_trip<T: Wire>(ms: Seq<T::Model>, tail: Seq<u8>)
    requires
        seq_fits::<T>(ms),
    ensures
        parse_seq::<T>(seq_bytes::<T>(ms) + tail) == Ok::<(Seq<T::Model>, nat), CacheError>(
            (ms, seq_bytes::<T>(ms).len()),
        ),
{
    assert forall|i: int, t: Seq<u8>| 0 <= i < ms.len() implies #[trigger] wire_dec::<T>()(
        wire_enc::<T>()(ms[i]) + t,
    ) == Ok::<(T::Model, nat), CacheError>((ms[i], wire_enc::<T>()(ms[i]).len())) by {
        T::lemma_round_trip(ms[i], t);
    }
    lemma_counted_round_trip(ms, tail, wire_enc::<T>(), wire_dec::<T>());
}

/// The models of a list held in a `Vec` fit.
pub proof fn lemma_seq_fits<T: Wire>(xs: Seq<T>)
    requires
        xs.len() <= u32::MAX,
        forall|i: int| 0 <= i < xs.len() ==> (#[trigger] xs[i]).wire_ok(),
    ensures
        seq_fits::<T>(wire_models(xs)),
{
    assert forall|i: int| 0 <= i < xs.len() implies T::model_fits(#[trigger] wire_models(xs)[i]) by {
        T::lemma_fits(&xs[i]);
    }
}

/// Reads a `T` at offset `at` of `s`, returning its model and the offset after it.
#[verifier::opaque]
pub open spec fn field<T: Wire>(s: Seq<u8>, at: nat) -> Result<(T::Model, nat), CacheError> {
    if at > s.len() {
        Err(CacheError::TruncatedInput)
    } else {
        match T::parse_model(s.subrange(at as int, s.len() as int)) {
            Ok((m, n)) => Ok((m, at + n)),
            Err(e) => Err(e),
        }
    }
}

/// A field encoded after `pre` reads back.
pub proof fn lemma_field<T: Wire>(pre: Seq<u8>, m: T::Model, post: Seq<u8>)
    requires
        T::model_fits(m),
    ensures
        field::<T>(pre + T::model_bytes(m) + post, pre.len()) == Ok::<(T::Model, nat), CacheError>(
            (m, pre.len() + T::model_bytes(m).len()),
        ),
{
    reveal(field);
    let s = pre + T::model_bytes(m) + post;
    assert(s.subrange(pre.len() as int, s.len() as int) =~= T::model_bytes(m) + post);
    T::lemma_round_trip(m, post);
}

/// Concatenation regroups.
pub proof fn lemma_regroup(a: Seq<u8>, b: Seq<u8>, c: Seq<u8>)
    ensures
        (a + b) + c == a + (b + c),
{
    assert((a + b) + c =~= a + (b + c));
}

/// The whole of a sequence is itself.
pub proof fn lemma_whole(s: Seq<u8>)
    ensures
        s.subrange(0, s.len() as int) == s,
{
    assert(s.subrange(0, s.len() as int) =~= s);
}

/// A field encoded at offset `k` of `s` reads back, and what follows it
/// starts after its bytes.
pub proof fn lemma_field_step<T: Wire>(s: Seq<u8>, k: nat, m: T::Model, after: Seq<u8>)
    requires
        T::model_fits(m),
        k <= s.len(),
        s.subrange(k as int, s.len() as int) == T::model_bytes(m) + after,
    ensures
        field::<T>(s, k) == Ok::<(T::Model, nat), CacheError>((m, k + T::model_bytes(m).len())),
        s.subrange((k + T::model_bytes(m).len()) as int, s.len() as int) == after,
{
    reveal(field);
    T::lemma_round_trip(m, after);
    let t = s.subrange(k as int, s.len() as int);
    assert(t.subrange(T::model_bytes(m).len() as int, t.len() as int) =~= after);
    assert(s.subrange((k + T::model_bytes(m).len()) as int, s.len() as int) =~= t.subrange(
        T::model_bytes(m).len() as int,
        t.len() as int,
    ));
}

/// Reads a `T` at `p`, a field of the record that starts at `pos`.
pub fn read_at<T: Wire>(buf: &[u8], pos: usize, p: usize) -> (r: Result<(T, usize), CacheError>)
    requires
        pos <= p <= buf@.len(),
    ensures
        match field::<T>(rest(buf@, pos as int), (p - pos) as nat) {
            Ok((m, k)) => r matches Ok((x, q)) && x.wire_model() == m && x.wire_ok() && q == pos
                + k && q <= buf@.len(),
            Err(e) => r == Err::<(T, usize), CacheError>(e),
        },
{
    reveal(field);
    let ghost s = rest(buf@, pos as int);
    assert(s.subrange(p - pos, s.len() as int) =~= rest(buf@, p as int));
    T::read(buf, p)
}

impl Wire for usize {
    type Model = usize;

    open spec fn wire_model(&self) -> usize {
        *self
    }

    open spec fn wire_ok(&self) -> bool {
        true
    }

    open spec fn model_fits(m: usize) -> bool {
        true
    }

    open spec fn model_bytes(m: usize) -> Seq<u8> {
        le_usize(m)
    }

    open spec fn parse_model(s: Seq<u8>) -> Result<(usize, nat), CacheError> {
        parse_usize(s)
    }

    fn write(&self, out: &mut Vec<u8>) {
        write_usize(out, *self);
    }

    fn read(buf: &[u8], pos: usize) -> (r: Result<(usize, usize), CacheError>) {
        read_usize(buf, pos)
    }

    proof fn lemma_fits(x: &usize) {
    }

    proof fn lemma_round_trip(m: usize, tail: Seq<u8>) {
        lemma_usize_round_trip(m, tail);
    }
}

impl Wire for u8 {
    type Model = u8;

    open spec fn wire_model(&self) -> u8 {
        *self
    }

    open spec fn wire_ok(&self) -> bool {
        true
    }

    open spec fn model_fits(m: u8) -> bool {
        true
    }

    open spec fn model_bytes(m: u8) -> Seq<u8> {
        seq![m]
    }

    open spec fn parse_model(s: Seq<u8>) -> Result<(u8, nat), CacheError> {
        parse_tag(s)
    }

    fn write(&self, out: &mut Vec<u8>) {
        out.push(*self);
    }

    fn read(buf: &[u8], pos: usize) -> (r: Result<(u8, usize), CacheError>) {
        read_tag(buf, pos)
    }

    proof fn lemma_fits(x: &u8) {
    }

    proof fn lemma_round_trip(m: u8, tail: Seq<u8>) {
        assert((seq![m] + tail)[0] == m);
    }
}

impl<A: Wire, B: Wire> Wire for (A, B) {
    type Model = (A::Model, B::Model);

    open spec fn wire_model(&self) -> (A::Model, B::Model) {
        (self.0.wire_model(), self.1.wire_model())
    }

    open spec fn wire_ok(&self) -> bool {
        self.0.wire_ok() && self.1.wire_ok()
    }

    open spec fn model_fits(m: (A::Model, B::Model)) -> bool {
        A::model_fits(m.0) && B::model_fits(m.1)
    }

    open spec fn model_bytes(m: (A::Model, B::Model)) -> Seq<u8> {
        A::model_bytes(m.0) + B::model_bytes(m.1)
    }

    open spec fn parse_model(s: Seq<u8>) -> Result<((A::Model, B::Model), nat), CacheError> {
        match field::<A>(s, 0) {
            Ok((x, k)) => match field::<B>(s, k) {
                Ok((y, n)) => Ok(((x, y), n)),
                Err(e) => Err(e),
            },
            Err(e) => Err(e),
        }
    }

    fn write(&self, out: &mut Vec<u8>) {
        let ghost start = out@;
        self.0.write(out);
        self.1.write(out);
        assert(out@ =~= start + Self::model_bytes(self.wire_model()));
    }

    fn read(buf: &[u8], pos: usize) -> (r: Result<((A, B), usize), CacheError>) {
        let (x, p) = match read_at::<A>(buf, pos, pos) {
            Ok(x) => x,
            Err(e) => return Err(e),
        };
        match read_at::<B>(buf, pos, p) {
            Ok((y, p2)) => Ok(((x, y), p2)),
            Err(e) => Err(e),
        }
    }

    proof fn lemma_fits(x: &(A, B)) {
        A::lemma_fits(&x.0);
        B::lemma_fits(&x.1);
    }

    proof fn lemma_round_trip(m: (A::Model, B::Model), tail: Seq<u8>) {
        let s = Self::model_bytes(m) + tail;
        let e = Seq::<u8>::empty();
        assert(s =~= e + A::model_bytes(m.0) + (B::model_bytes(m.1) + tail));
        lemma_field::<A>(e, m.0, B::model_bytes(m.1) + tail);
        assert(s =~= A::model_bytes(m.0) + B::model_bytes(m.1) + tail);
        lemma_field::<B>(A::model_bytes(m.0), m.1, tail);
    }
}

impl<T: Wire> Wire for Vec<T> {
    type Model = Seq<T::Model>;

    open spec fn wire_model(&self) -> Seq<T::Model> {
        wire_models(self@)
    }

    open spec fn wire_ok(&self) -> bool {
        &&& self@.len() <= u32::MAX
        &&& forall|i: int| 0 <= i < self@.len() ==> (#[trigger] self@[i]).wire_ok()
    }

    open spec fn model_fits(m: Seq<T::Model>) -> bool {
        seq_fits::<T>(m)
    }

    open spec fn model_bytes(m: Seq<T::Model>) -> Seq<u8> {
        seq_bytes::<T>(m)
    }

    open spec fn parse_model(s: Seq<u8>) -> Result<(Seq<T::Model>, nat), CacheError> {
        parse_seq::<T>(s)
    }

    fn write(&self, out: &mut Vec<u8>) {
        write_seq(out, self);
    }

    fn read(buf: &[u8], pos: usize) -> (r: Result<(Vec<T>, usize), CacheError>) {
        read_seq(buf, pos)
    }

    proof fn lemma_fits(x: &Vec<T>) {
        lemma_seq_fits::<T>(x@);
    }

    proof fn lemma_round_trip(m: Seq<T::Model>, tail: Seq<u8>) {
        lemma_seq_round_trip::<T>(m, tail);
    }
}

impl<T: Wire> Wire for Option<T> {
    type Model = Option<T::Model>;

    open spec fn wire_model(&self) -> Option<T::Model> {
        match self {
            Some(x) => Some(x.wire_model()),
            None => None,
        }
    }

    open spec fn wire_ok(&self) -> bool {
        match self {
            Some(x) => x.wire_ok(),
            None => true,
        }
    }

    open spec fn model_fits(m: Option<T::Model>) -> bool {
        match m {
            Some(x) => T::model_fits(x),
            None => true,
        }
    }

    open spec fn model_bytes(m: Option<T::Model>) -> Seq<u8> {
        match m {
            Some(x) => seq![1u8] + T::model_bytes(x),
            None => seq![0u8],
        }
    }

    open spec fn parse_model(s: Seq<u8>) -> Result<(Option<T::Model>, nat), CacheError> {
        if s.len() < 1 {
            Err(CacheError::TruncatedInput)
        } else if s[0] == 0 {
            Ok((None, 1))
        } else if s[0] == 1 {
            match T::parse_model(s.subrange(1, s.len() as int)) {
                Ok((x, n)) => Ok((Some(x), 1 + n)),
                Err(e) => Err(e),
            }
        } else {
            Err(CacheError::UnknownVariant)
        }
    }

    fn write(&self, out: &mut Vec<u8>) {
        let ghost start = out@;
        match self {
            Some(x) => {
                out.push(1u8);
                x.write(out);
            },
            None => out.push(0u8),
        }
        assert(out@ =~= start + Self::model_bytes(self.wire_model()));
    }

    fn read(buf: &[u8], pos: usize) -> (r: Result<(Option<T>, usize), CacheError>) {
        let ghost s = rest(buf@, pos as int);
        if pos >= buf.len() {
            return Err(CacheError::TruncatedInput);
        }
        let t = buf[pos];
        assert(s.subrange(1, s.len() as int) =~= rest(buf@, pos + 1));
        if t == 0 {
            Ok((None, pos + 1))
        } else if t == 1 {
            match T::read(buf, pos + 1) {
                Ok((x, p2)) => Ok((Some(x), p2)),
                Err(e) => Err(e),
            }
        } else {
            Err(CacheError::UnknownVariant)
        }
    }

    proof fn lemma_fits(x: &Option<T>) {
        if let Some(y) = x {
            T::lemma_fits(y);
        }
    }

    proof fn lemma_round_trip(m: Option<T::Model>, tail: Seq<u8>) {
        let s = Self::model_bytes(m) + tail;
        if let Some(x) = m {
            assert(s.subrange(1, s.len() as int) =~= T::model_bytes(x) + tail);
            T::lemma_round_trip(x, tail);
        }
    }
}

impl Wire for MachineValue {
    type Model = ValueModel;

    open spec fn wire_model(&self) -> ValueModel {
        self.model()
    }

    open spec fn wire_ok(&self) -> bool {
        value_fits(self.model())
    }

    open spec fn model_fits(m: ValueModel) -> bool {
        value_fits(m)
    }

    open spec fn model_bytes(m: ValueModel) -> Seq<u8> {
        value_bytes(m)
    }

    open spec fn parse_model(s: Seq<u8>) -> Result<(ValueModel, nat), CacheError> {
        parse_value(s)
    }

    fn write(&self, out: &mut Vec<u8>) {
        write_value(out, self);
    }

    fn read(buf: &[u8], pos: usize) -> (r: Result<(MachineValue, usize), CacheError>) {
        read_value(buf, pos)
    }

    proof fn lemma_fits(x: &MachineValue) {
    }

    proof fn lemma_round_trip(m: ValueModel, tail: Seq<u8>) {
        lemma_value_round_trip(m, tail);
    }
}

impl Wire for WasmAbstractValue {
    type Model = WasmAbstractValue;

    open spec fn wire_model(&self) -> WasmAbstractValue {
        *self
    }

    open spec fn wire_ok(&self) -> bool {
        true
    }

    open spec fn model_fits(m: WasmAbstractValue) -> bool {
        true
    }

    open spec fn model_bytes(m: WasmAbstractValue) -> Seq<u8> {
        wasm_value_bytes(m)
    }

    open spec fn parse_model(s: Seq<u8>) -> Result<(WasmAbstractValue, nat), CacheError> {
        parse_wasm_value(s)
    }

    fn write(&self, out: &mut Vec<u8>) {
        write_wasm_value(out, *self);
    }

    fn read(buf: &[u8], pos: usize) -> (r: Result<(WasmAbstractValue, usize), CacheError>) {
        read_wasm_value(buf, pos)
    }

    proof fn lemma_fits(x: &WasmAbstractValue) {
    }

    proof fn lemma_round_trip(m: WasmAbstractValue, tail: Seq<u8>) {
        lemma_wasm_value_round_trip(m, tail);
    }
}

impl Wire for SuspendOffset {
    type Model = SuspendOffset;

    open spec fn wire_model(&self) -> SuspendOffset {
        *self
    }

    open spec fn wire_ok(&self) -> bool {
        true
    }

    open spec fn model_fits(m: SuspendOffset) -> bool {
        true
    }

    open spec fn model_bytes(m: SuspendOffset) -> Seq<u8> {
        suspend_bytes(m)
    }

    open spec fn parse_model(s: Seq<u8>) -> Result<(SuspendOffset, nat), CacheError> {
        parse_suspend(s)
    }

    fn write(&self, out: &mut Vec<u8>) {
        write_suspend(out, *self);
    }

    fn read(buf: &[u8], pos: usize) -> (r: Result<(SuspendOffset, usize), CacheError>) {
        read_suspend(buf, pos)
    }

    proof fn lemma_fits(x: &SuspendOffset) {
    }

    proof fn lemma_round_trip(m: SuspendOffset, tail: Seq<u8>) {
        lemma_suspend_round_trip(m, tail);
    }
}

impl Wire for OffsetInfo {
    type Model = OffsetInfo;

    open spec fn wire_model(&self) -> OffsetInfo {
        *self
    }

    open spec fn wire_ok(&self) -> bool {
        true
    }

    open spec fn model_fits(m: OffsetInfo) -> bool {
        true
    }

    open spec fn model_bytes(m: OffsetInfo) -> Seq<u8> {
        info_bytes(m)
    }

    open spec fn parse_model(s: Seq<u8>) -> Result<(OffsetInfo, nat), CacheError> {
        parse_info(s)
    }

    fn write(&self, out: &mut Vec<u8>) {
        write_info(out, *self);
    }

    fn read(buf: &[u8], pos: usize) -> (r: Result<(OffsetInfo, usize), CacheError>) {
        read_info(buf, pos)
    }

    proof fn lemma_fits(x: &OffsetInfo) {
    }

    proof fn lemma_round_trip(m: OffsetInfo, tail: Seq<u8>) {
        lemma_info_round_trip(m, tail);
    }
}

impl Wire for RegisterIndex {
    type Model = usize;

    open spec fn wire_model(&self) -> usize {
        self.0
    }

    open spec fn wire_ok(&self) -> bool {
        true
    }

    open spec fn model_fits(m: usize) -> bool {
        true
    }

    open spec fn model_bytes(m: usize) -> Seq<u8> {
        le_usize(m)
    }

    open spec fn parse_model(s: Seq<u8>) -> Result<(usize, nat), CacheError> {
        parse_usize(s)
    }

    fn write(&self, out: &mut Vec<u8>) {
        write_usize(out, self.0);
    }

    fn read(buf: &[u8], pos: usize) -> (r: Result<(RegisterIndex, usize), CacheError>) {
        match read_usize(buf, pos) {
            Ok((x, p)) => Ok((RegisterIndex(x), p)),
            Err(e) => Err(e),
        }
    }

    proof fn lemma_fits(x: &RegisterIndex) {
    }

    proof fn lemma_round_trip(m: usize, tail: Seq<u8>) {
        lemma_usize_round_trip(m, tail);
    }
}

} // verus!
