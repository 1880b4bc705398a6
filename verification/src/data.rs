//! Built-in payload types and the node-authoring traits. Payloads cross
//! channels and the pub/sub transport as plain bytes; these types carry a
//! proved serialisation for the common cases, and the traits are what node
//! implementations plug into the runners.

use vstd::prelude::*;
use vstd::slice::slice_to_vec;
use vstd::string::StringSliceAdditionalSpecFns;
use vstd::utf8::{decode_utf8, encode_utf8, valid_utf8};

verus! {

/// The errors node-facing serialisation surfaces.
#[derive(Clone, Copy, Debug, PartialEq, Eq, Structural)]
pub enum ZFError {
    DeseralizationError,
    SerializationError,
}

/// A value a node can hand to a channel.
pub trait ZFDataTrait {
    fn try_serialize(&self) -> Result<Vec<u8>, ZFError>;
}

/// A value that can be read back from channel bytes.
pub trait ZFDeserializable where Self: Sized {
    fn try_deserialize(bytes: &[u8]) -> Result<Self, ZFError>;
}

/// A marker for the state object a component keeps between iterations.
pub trait ZFStateTrait {
}

/// A component that owns such a state.
pub trait ZFComponentState {
    type State;

    fn initial_state(&self) -> Self::State;
}

/// Whether an input port's token is ready to be consumed.
#[derive(Clone, Copy, Debug, PartialEq, Eq, Structural)]
pub enum Token {
    Pending,
    Ready,
}

/// A component that decides when its inputs are ready.
pub trait ZFComponentInputRule {
    fn input_rule(&self, tokens: &Vec<(u64, Token)>) -> Result<bool, ZFError>;
}

/// A component that routes its computed outputs to its ports.
pub trait ZFComponentOutputRule {
    fn output_rule(&self, outputs: Vec<(u64, Vec<u8>)>) -> Result<Vec<(u64, Vec<u8>)>, ZFError>;
}

/// The default routing rule: every computed output goes out as it is.
pub fn default_output_rule(outputs: Vec<(u64, Vec<u8>)>) -> (r: Result<
    Vec<(u64, Vec<u8>)>,
    ZFError,
>)
    ensures
        r matches Ok(v) && v == outputs,
{
    Ok(outputs)
}

/// An operator: consumes the payloads of its input ports and produces
/// payloads on its output ports.
pub trait ZFOperatorTrait: ZFComponentState + ZFComponentInputRule + ZFComponentOutputRule {
    fn run(&self, state: &mut Self::State, inputs: &Vec<(u64, Vec<u8>)>) -> Result<
        Vec<(u64, Vec<u8>)>,
        ZFError,
    >;
}

/// A sink: consumes the payloads of its input ports.
pub trait ZFSinkTrait: ZFComponentState + ZFComponentInputRule {
    fn run(&self, state: &mut Self::State, inputs: &Vec<(u64, Vec<u8>)>) -> Result<(), ZFError>;
}

/// A source: produces payloads on its output ports.
pub trait ZFSourceTrait: ZFComponentState {
    fn run(&self, state: &mut Self::State) -> Result<Vec<(u64, Vec<u8>)>, ZFError>;
}

/// The default readiness rule: fire once every token is ready.
pub fn default_input_rule(tokens: &Vec<(u64, Token)>) -> (r: bool)
    ensures
        r == (forall|i: int| 0 <= i < tokens@.len() ==> (#[trigger] tokens@[i]).1 == Token::Ready),
{
    let n = tokens.len();
    let mut i: usize = 0;
    while i < n
        invariant
            i <= n,
            n == tokens@.len(),
            forall|k: int| 0 <= k < i ==> (#[trigger] tokens@[k]).1 == Token::Ready,
        decreases n - i,
    {
        if !matches!(tokens[i].1, Token::Ready) {
            return false;
        }
        i = i + 1;
    }
    true
}

/// Relies on `std::str::from_utf8`: it succeeds exactly on valid UTF-8 and
/// yields the string whose byte encoding is the input.
#[verifier::external_body]
fn utf8_from_bytes(bytes: &[u8]) -> (r: Option<&str>)
    ensures
        r is Some <==> valid_utf8(bytes@),
        r matches Some(s) ==> s.spec_bytes() == bytes@,
{
    std::str::from_utf8(bytes).ok()
}

/// A UTF-8 string payload.
#[derive(Debug)]
pub struct ZFString(pub String);

impl ZFString {
    /// The UTF-8 bytes of the string.
    pub fn try_serialize(&self) -> (r: Result<Vec<u8>, ZFError>)
        ensures
            r matches Ok(v) && v@ == encode_utf8(self.0@),
    {
        Ok(slice_to_vec(self.0.as_str().as_bytes()))
    }

    /// Reads a string payload back; fails exactly on bytes that are not
    /// valid UTF-8.
    pub fn try_deserialize(bytes: &[u8]) -> (r: Result<ZFString, ZFError>)
        ensures
            r is Ok <==> valid_utf8(bytes@),
            r matches Ok(z) ==> z.0@ == decode_utf8(bytes@),
            r matches Err(e) ==> e == ZFError::DeseralizationError,
    {
        match utf8_from_bytes(bytes) {
            Some(s) => {
                proof {
                    vstd::utf8::encode_utf8_decode_utf8(s@);
                }
                Ok(ZFString(s.to_owned()))
            },
            None => Err(ZFError::DeseralizationError),
        }
    }
}


impl From<String> for ZFString {
    fn from(s: String) -> (r: ZFString) {
        ZFString(s)
    }
}

impl vstd::std_specs::convert::FromSpecImpl<String> for ZFString {
    open spec fn obeys_from_spec() -> bool {
        true
    }

    open spec fn from_spec(s: String) -> ZFString {
        ZFString(s)
    }
}

impl From<&str> for ZFString {
    fn from(s: &str) -> (r: ZFString) {
        ZFString(s.to_owned())
    }
}

impl vstd::std_specs::convert::FromSpecImpl<&str> for ZFString {
    open spec fn obeys_from_spec() -> bool {
        false
    }

    open spec fn from_spec(s: &str) -> ZFString {
        choose|z: ZFString| z.0@ == s@
    }
}

/// Serialising a string and reading it back gives the string again.
pub proof fn lemma_zfstring_round_trip(s: Seq<char>)
    ensures
        valid_utf8(encode_utf8(s)),
        decode_utf8(encode_utf8(s)) == s,
{
    vstd::utf8::encode_utf8_valid_utf8(s);
    vstd::utf8::encode_utf8_decode_utf8(s);
}

/// The little-endian bytes of `v`, `n` of them.
pub open spec fn le_bytes(v: nat, n: nat) -> Seq<u8>
    decreases n,
{
    if n == 0 {
        Seq::empty()
    } else {
        seq![(v % 256) as u8] + le_bytes(v / 256, (n - 1) as nat)
    }
}

/// The value of little-endian bytes.
pub open spec fn le_val(b: Seq<u8>) -> nat
    decreases b.len(),
{
    if b.len() == 0 {
        0
    } else {
        (b[0] + 256 * le_val(b.drop_first())) as nat
    }
}

pub open spec fn pow256(n: nat) -> nat
    decreases n,
{
    if n == 0 {
        1
    } else {
        256 * pow256((n - 1) as nat)
    }
}

pub proof fn lemma_pow256_mono(a: nat, b: nat)
    requires
        a <= b,
    ensures
        pow256(a) <= pow256(b),
    decreases b,
{
    if a < b {
        lemma_pow256_mono(a, (b - 1) as nat);
        assert(pow256(b) == 256 * pow256((b - 1) as nat));
    }
}

pub proof fn lemma_le_val_bound(b: Seq<u8>)
    ensures
        le_val(b) < pow256(b.len() as nat),
    decreases b.len(),
{
    if b.len() > 0 {
        lemma_le_val_bound(b.drop_first());
        assert(le_val(b) < pow256(b.len() as nat)) by (nonlinear_arith)
            requires
                le_val(b) == (b[0] + 256 * le_val(b.drop_first())) as nat,
                b[0] < 256,
                le_val(b.drop_first()) < pow256((b.len() - 1) as nat),
                pow256(b.len() as nat) == 256 * pow256((b.len() - 1) as nat),
        ;
    }
}

/// Reading the little-endian bytes of a value gives the value back.
pub proof fn lemma_le_round_trip(v: nat, n: nat)
    requires
        v < pow256(n),
    ensures
        le_bytes(v, n).len() == n,
        le_val(le_bytes(v, n)) == v,
    decreases n,
{
    if n == 0 {
    } else {
        assert(v / 256 < pow256((n - 1) as nat)) by (nonlinear_arith)
            requires
                v < pow256(n),
                pow256(n) == 256 * pow256((n - 1) as nat),
        ;
        lemma_le_round_trip(v / 256, (n - 1) as nat);
        let b = le_bytes(v, n);
        assert(b.drop_first() =~= le_bytes(v / 256, (n - 1) as nat));
        assert(le_val(b) == (b[0] + 256 * le_val(b.drop_first())) as nat);
        assert(v % 256 + 256 * (v / 256) == v) by (nonlinear_arith);
    }
}

/// One round of the counter-to-collector pipeline, stated over the
/// contracts of `CounterSource::step`, the FIFO channel and
/// `CollectorSink::consume`: the payload the counter emits for `count` is
/// exactly the eight bytes whose value is `count`, the collector accepts
/// it, and appending it to an observation of `0, 1, …, count - 1` gives
/// exactly `0, 1, …, count` — monotone from zero, with no gap and no
/// duplicate. The machine-word bound is the one limit the payload format
/// imposes.
pub proof fn lemma_pipeline_step(count: u64, seen: Seq<u64>)
    requires
        count <= usize::MAX,
        seen == Seq::new(count as nat, |i: int| i as u64),
    ensures
        le_bytes(count as nat, 8).len() == 8,
        le_val(le_bytes(count as nat, 8)) == count,
        le_val(le_bytes(count as nat, 8)) <= usize::MAX,
        seen.push(count) == Seq::new(count as nat + 1, |i: int| i as u64),
{
    reveal_with_fuel(pow256, 9);
    lemma_le_round_trip(count as nat, 8);
    assert(seen.push(count) =~= Seq::new(count as nat + 1, |i: int| i as u64));
}

/// The eight little-endian bytes of a word.
pub fn le8_of_u64(v: u64) -> (out: Vec<u8>)
    ensures
        out@ == le_bytes(v as nat, 8),
        out@.len() == 8,
{
    let mut out: Vec<u8> = Vec::new();
    let mut cur: u64 = v;
    let mut k: usize = 0;
    while k < 8
        invariant
            k <= 8,
            out@.len() == k,
            le_bytes(v as nat, 8) == out@ + le_bytes(cur as nat, (8 - k) as nat),
        decreases 8 - k,
    {
        let d: u8 = (cur % 256) as u8;
        out.push(d);
        proof {
            assert(le_bytes(cur as nat, (8 - k) as nat) == seq![(cur as nat % 256) as u8]
                + le_bytes(cur as nat / 256, (8 - k - 1) as nat));
            assert(le_bytes(v as nat, 8) =~= out@ + le_bytes(
                cur as nat / 256,
                (8 - k - 1) as nat,
            ));
        }
        cur = cur / 256;
        k = k + 1;
    }
    proof {
        assert(le_bytes(cur as nat, 0) =~= Seq::<u8>::empty());
        assert(le_bytes(v as nat, 8) =~= out@);
    }
    out
}

/// A machine-word payload, carried as eight little-endian bytes.
#[derive(Debug)]
pub struct ZFUsize(pub usize);

impl ZFUsize {
    /// The eight little-endian bytes of the value.
    pub fn try_serialize(&self) -> (r: Result<Vec<u8>, ZFError>)
        ensures
            r matches Ok(v) && v@ == le_bytes(self.0 as nat, 8) && v@.len() == 8,
    {
        proof {
            assert(self.0 as u64 as nat == self.0 as nat);
        }
        Ok(le8_of_u64(self.0 as u64))
    }

    /// Reads a word back; fails exactly when the payload is not eight bytes
    /// or its value does not fit this machine's word.
    pub fn try_deserialize(bytes: &[u8]) -> (r: Result<ZFUsize, ZFError>)
        ensures
            r is Ok <==> (bytes@.len() == 8 && le_val(bytes@) <= usize::MAX),
            r matches Ok(z) ==> z.0 as nat == le_val(bytes@),
            r matches Err(e) ==> e == ZFError::DeseralizationError,
    {
        if bytes.len() != 8 {
            return Err(ZFError::DeseralizationError);
        }
        let mut acc: u64 = 0;
        let mut i: usize = 8;
        while i > 0
            invariant
                i <= 8,
                bytes@.len() == 8,
                acc as nat == le_val(bytes@.subrange(i as int, 8)),
            decreases i,
        {
            i = i - 1;
            proof {
                lemma_le_val_bound(bytes@.subrange(i + 1, 8));
                lemma_pow256_mono((7 - i) as nat, 7);
                reveal_with_fuel(pow256, 9);
                assert(pow256(7) == 0x100_0000_0000_0000);
                assert(bytes@.subrange(i as int, 8).drop_first() =~= bytes@.subrange(i + 1, 8));
                let hi: nat = 0x100_0000_0000_0000;
                assert(acc as nat * 256 + bytes@[i as int] < 0x1_0000_0000_0000_0000)
                    by (nonlinear_arith)
                    requires
                        (acc as nat) < hi,
                        hi == 0x100_0000_0000_0000,
                        bytes@[i as int] < 256,
                ;
            }
            acc = acc * 256 + (bytes[i] as u64);
            proof {
                assert(le_val(bytes@.subrange(i as int, 8)) == (bytes@.subrange(i as int, 8)[0]
                    + 256 * le_val(bytes@.subrange(i as int, 8).drop_first())) as nat);
            }
        }
        proof {
            assert(bytes@.subrange(0, 8) =~= bytes@);
        }
        if acc > (usize::MAX as u64) {
            return Err(ZFError::DeseralizationError);
        }
        Ok(ZFUsize(acc as usize))
    }
}

/// An opaque byte payload.
#[derive(Debug)]
pub struct ZFBytes(pub Vec<u8>);

impl ZFBytes {
    /// The bytes themselves.
    pub fn try_serialize(&self) -> (r: Result<Vec<u8>, ZFError>)
        ensures
            r matches Ok(v) && v@ == self.0@,
    {
        Ok(slice_to_vec(self.0.as_slice()))
    }

    /// Reads a byte payload back; never fails.
    pub fn try_deserialize(bytes: &[u8]) -> (r: Result<ZFBytes, ZFError>)
        ensures
            r matches Ok(z) && z.0@ == bytes@,
    {
        Ok(ZFBytes(slice_to_vec(bytes)))
    }
}

impl ZFDataTrait for ZFString {
    fn try_serialize(&self) -> Result<Vec<u8>, ZFError> {
        ZFString::try_serialize(self)
    }
}

impl ZFDataTrait for ZFUsize {
    fn try_serialize(&self) -> Result<Vec<u8>, ZFError> {
        ZFUsize::try_serialize(self)
    }
}

impl ZFDataTrait for ZFBytes {
    fn try_serialize(&self) -> Result<Vec<u8>, ZFError> {
        ZFBytes::try_serialize(self)
    }
}

impl ZFDeserializable for ZFString {
    fn try_deserialize(bytes: &[u8]) -> Result<ZFString, ZFError> {
        ZFString::try_deserialize(bytes)
    }
}

impl ZFDeserializable for ZFUsize {
    fn try_deserialize(bytes: &[u8]) -> Result<ZFUsize, ZFError> {
        ZFUsize::try_deserialize(bytes)
    }
}

impl ZFDeserializable for ZFBytes {
    fn try_deserialize(bytes: &[u8]) -> Result<ZFBytes, ZFError> {
        ZFBytes::try_deserialize(bytes)
    }
}

/// The state of a component that keeps none.
#[derive(Clone, Copy, Debug)]
pub struct ZFEmptyState;

impl ZFStateTrait for ZFEmptyState {
}

/// The example source: emits the values of a per-instance counter, one per
/// iteration, monotonically and without gaps.
pub struct CounterSource {
    pub port: u64,
}

/// The counter lives inside the node's own state, not in a process global.
pub struct CounterState {
    pub count: u64,
}

impl ZFStateTrait for CounterState {
}

impl CounterSource {
    /// One iteration: emits the current count on the configured port as a
    /// word payload and advances the counter.
    pub fn step(&self, state: &mut CounterState) -> (r: Vec<(u64, Vec<u8>)>)
        requires
            old(state).count < u64::MAX,
        ensures
            final(state).count == old(state).count + 1,
            r@.len() == 1,
            r@[0].0 == self.port,
            r@[0].1@ == le_bytes(old(state).count as nat, 8),
    {
        let payload = le8_of_u64(state.count);
        state.count = state.count + 1;
        let mut out: Vec<(u64, Vec<u8>)> = Vec::new();
        out.push((self.port, payload));
        out
    }
}

impl ZFComponentState for CounterSource {
    type State = CounterState;

    fn initial_state(&self) -> CounterState {
        CounterState { count: 0 }
    }
}

impl ZFComponentOutputRule for CounterSource {
    fn output_rule(&self, outputs: Vec<(u64, Vec<u8>)>) -> Result<Vec<(u64, Vec<u8>)>, ZFError> {
        default_output_rule(outputs)
    }
}

impl ZFSourceTrait for CounterSource {
    fn run(&self, state: &mut CounterState) -> Result<Vec<(u64, Vec<u8>)>, ZFError> {
        if state.count == u64::MAX {
            return Err(ZFError::SerializationError);
        }
        Ok(self.step(state))
    }
}

/// The example operator: relays every payload it receives to one output
/// port, untouched.
pub struct RelayOperator {
    pub port: u64,
}

impl RelayOperator {
    /// Routes each input payload to the configured output port, in order
    /// and unchanged.
    pub fn route(&self, inputs: &Vec<(u64, Vec<u8>)>) -> (out: Vec<(u64, Vec<u8>)>)
        ensures
            out@.len() == inputs@.len(),
            forall|i: int|
                0 <= i < inputs@.len() ==> (#[trigger] out@[i]).0 == self.port && out@[i].1@
                    == inputs@[i].1@,
    {
        let n = inputs.len();
        let mut out: Vec<(u64, Vec<u8>)> = Vec::new();
        let mut i: usize = 0;
        while i < n
            invariant
                i <= n,
                n == inputs@.len(),
                out@.len() == i,
                forall|k: int|
                    0 <= k < i ==> (#[trigger] out@[k]).0 == self.port && out@[k].1@
                        == inputs@[k].1@,
            decreases n - i,
        {
            out.push((self.port, slice_to_vec(inputs[i].1.as_slice())));
            i = i + 1;
        }
        out
    }
}

impl ZFComponentState for RelayOperator {
    type State = ZFEmptyState;

    fn initial_state(&self) -> ZFEmptyState {
        ZFEmptyState
    }
}

impl ZFComponentInputRule for RelayOperator {
    fn input_rule(&self, tokens: &Vec<(u64, Token)>) -> Result<bool, ZFError> {
        Ok(default_input_rule(tokens))
    }
}

impl ZFComponentOutputRule for RelayOperator {
    fn output_rule(&self, outputs: Vec<(u64, Vec<u8>)>) -> Result<Vec<(u64, Vec<u8>)>, ZFError> {
        default_output_rule(outputs)
    }
}

impl ZFOperatorTrait for RelayOperator {
    fn run(&self, _state: &mut ZFEmptyState, inputs: &Vec<(u64, Vec<u8>)>) -> Result<
        Vec<(u64, Vec<u8>)>,
        ZFError,
    > {
        Ok(self.route(inputs))
    }
}

/// The example sink: decodes each word payload it is handed and remembers
/// the sequence it observed.
pub struct CollectorSink {
}

pub struct CollectorState {
    pub seen: Vec<u64>,
}

impl ZFStateTrait for CollectorState {
}

impl CollectorSink {
    /// Consumes one payload: decodes the word and appends it to the
    /// observed sequence; refuses a payload that is not a word.
    pub fn consume(&self, state: &mut CollectorState, payload: &Vec<u8>) -> (r: Result<
        (),
        ZFError,
    >)
        ensures
            r is Ok <==> (payload@.len() == 8 && le_val(payload@) <= usize::MAX),
            r is Ok ==> final(state).seen@ == old(state).seen@.push(
                le_val(payload@) as u64,
            ),
            r is Err ==> final(state).seen@ == old(state).seen@,
    {
        match ZFUsize::try_deserialize(payload.as_slice()) {
            Ok(z) => {
                proof {
                    lemma_le_val_bound(payload@);
                }
                state.seen.push(z.0 as u64);
                Ok(())
            },
            Err(e) => Err(e),
        }
    }
}

impl ZFComponentState for CollectorSink {
    type State = CollectorState;

    fn initial_state(&self) -> CollectorState {
        CollectorState { seen: Vec::new() }
    }
}

impl ZFComponentInputRule for CollectorSink {
    fn input_rule(&self, tokens: &Vec<(u64, Token)>) -> Result<bool, ZFError> {
        Ok(default_input_rule(tokens))
    }
}

impl ZFSinkTrait for CollectorSink {
    fn run(&self, state: &mut CollectorState, inputs: &Vec<(u64, Vec<u8>)>) -> Result<
        (),
        ZFError,
    > {
        let n = inputs.len();
        let mut i: usize = 0;
        while i < n
            invariant
                i <= n,
                n == inputs@.len(),
            decreases n - i,
        {
            match self.consume(state, &inputs[i].1) {
                Ok(_u) => {
                },
                Err(e) => {
                    return Err(e);
                },
            }
            i = i + 1;
        }
        Ok(())
    }
}

} // verus!
