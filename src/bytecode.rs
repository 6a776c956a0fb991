use vstd::prelude::*;

use crate::error::DecodeError;
use crate::varint::{
    get_u32, get_u64, lemma_varint_round_trip, lemma_varint_truncated, put_u32, put_u64, read_varint, varint_bytes,
    U32_MAX_TAG, U64_MAX_TAG,
};

verus! {

/// Wire tag of [`Operation::Xor`].
pub const XOR_OPCODE: u8 = 0x40;

/// Wire tag of [`Operation::And`].
pub const AND_OPCODE: u8 = 0x41;

/// Represents a single operation in the bytecode.
///
/// Each operation manipulates values on the stack, performing some bitwise
/// operation on them.
#[derive(Clone, Copy, Debug, PartialEq, Eq, Structural)]
pub enum Operation {
    /// Xor the top two elements of the stack, replacing them.
    Xor,
    /// And the top two elements of the stack, replacing them.
    And,
}

/// The wire tag of each operation.
pub open spec fn opcode(op: Operation) -> u8 {
    match op {
        Operation::Xor => XOR_OPCODE,
        Operation::And => AND_OPCODE,
    }
}

/// The operation a wire tag stands for, or the error for a byte that is no tag.
pub open spec fn operation_of(b: u8) -> Result<Operation, DecodeError> {
    if b == XOR_OPCODE {
        Ok(Operation::Xor)
    } else if b == AND_OPCODE {
        Ok(Operation::And)
    } else {
        Err(DecodeError::InvalidOpcode(b))
    }
}

/// Reads one operation from the front of `s`: the operation and the one byte
/// it takes.
pub open spec fn parse_operation(s: Seq<u8>) -> Result<(Operation, nat), DecodeError> {
    if s.len() == 0 {
        Err(DecodeError::UnexpectedEnd)
    } else {
        match operation_of(s[0]) {
            Ok(op) => Ok((op, 1)),
            Err(e) => Err(e),
        }
    }
}

impl Operation {
    /// The wire tag of this operation.
    pub fn encode(&self) -> (r: u8)
        ensures
            r == opcode(*self),
            *self == Operation::Xor ==> r == 0x40,
            *self == Operation::And ==> r == 0x41,
    {
        match self {
            Operation::Xor => XOR_OPCODE,
            Operation::And => AND_OPCODE,
        }
    }

    /// The operation whose wire tag is `b`; any other byte is an
    /// [`DecodeError::InvalidOpcode`] carrying it.
    pub fn from_opcode(b: u8) -> (r: Result<Operation, DecodeError>)
        ensures
            r == operation_of(b),
    {
        match b {
            XOR_OPCODE => Ok(Operation::Xor),
            AND_OPCODE => Ok(Operation::And),
            _ => Err(DecodeError::InvalidOpcode(b)),
        }
    }

    /// Decodes the operation at the front of `bytes`, with the number of bytes
    /// it took.
    pub fn decode(bytes: &[u8]) -> (r: Result<(Operation, usize), DecodeError>)
        ensures
            r matches Ok((op, n)) ==> parse_operation(bytes@) == Ok::<(Operation, nat), DecodeError>((op, n as nat)),
            r matches Err(e) ==> parse_operation(bytes@) == Err::<(Operation, nat), DecodeError>(e),
    {
        if bytes.len() == 0 {
            return Err(DecodeError::UnexpectedEnd);
        }
        match Operation::from_opcode(bytes[0]) {
            Ok(op) => Ok((op, 1)),
            Err(e) => Err(e),
        }
    }

    /// The short name of this operation, for diagnostics.
    pub fn name(&self) -> (r: &'static str)
        ensures
            *self == Operation::Xor ==> r@ == "Xor"@,
            *self == Operation::And ==> r@ == "And"@,
    {
        match self {
            Operation::Xor => "Xor",
            Operation::And => "And",
        }
    }
}

/// This describes what inputs a function takes, and what outputs it produces.
#[derive(Clone, Copy, Debug, PartialEq, Eq, Structural)]
pub struct FunctionSignature {
    /// The number of inputs to the function.
    pub inputs: u32,
    /// The number of outputs to the function.
    pub outputs: u32,
}

/// The bytes of a signature: `inputs`, then `outputs`, each a variable-length
/// integer.
pub open spec fn signature_bytes(sig: FunctionSignature) -> Seq<u8> {
    varint_bytes(sig.inputs as nat) + varint_bytes(sig.outputs as nat)
}

/// Reads a signature from the front of `s`, with the number of bytes it took.
pub open spec fn parse_signature(s: Seq<u8>) -> Result<(FunctionSignature, nat), DecodeError> {
    match read_varint(s, U32_MAX_TAG) {
        Err(e) => Err(e),
        Ok((i, n1)) => match read_varint(s.skip(n1 as int), U32_MAX_TAG) {
            Err(e) => Err(e),
            Ok((o, n2)) => Ok((FunctionSignature { inputs: i as u32, outputs: o as u32 }, n1 + n2)),
        },
    }
}

impl FunctionSignature {
    /// Appends the bytes of this signature to `out`.
    pub fn encode_into(&self, out: &mut Vec<u8>)
        ensures
            final(out)@ == old(out)@ + signature_bytes(*self),
    {
        put_u32(out, self.inputs);
        put_u32(out, self.outputs);
        assert(final(out)@ =~= old(out)@ + signature_bytes(*self));
    }

    /// The bytes of this signature.
    pub fn encode(&self) -> (r: Vec<u8>)
        ensures
            r@ == signature_bytes(*self),
    {
        let mut out: Vec<u8> = Vec::new();
        self.encode_into(&mut out);
        assert(out@ =~= signature_bytes(*self));
        out
    }

    /// Decodes a signature starting at `pos`: the signature and the position
    /// just after it.
    pub fn decode_at(bytes: &[u8], pos: usize) -> (r: Result<(FunctionSignature, usize), DecodeError>)
        requires
            pos <= bytes@.len(),
        ensures
            r is Ok ==> pos <= r->Ok_0.1 <= bytes@.len() && parse_signature(bytes@.skip(pos as int))
                == Ok::<(FunctionSignature, nat), DecodeError>((r->Ok_0.0, (r->Ok_0.1 - pos) as nat)),
            r is Err ==> parse_signature(bytes@.skip(pos as int)) == Err::<(FunctionSignature, nat), DecodeError>(
                r->Err_0,
            ),
    {
        let (inputs, mid) = match get_u32(bytes, pos) {
            Ok(p) => p,
            Err(e) => return Err(e),
        };
        assert(bytes@.skip(pos as int).skip(mid - pos) =~= bytes@.skip(mid as int));
        let (outputs, end) = match get_u32(bytes, mid) {
            Ok(p) => p,
            Err(e) => return Err(e),
        };
        Ok((FunctionSignature { inputs, outputs }, end))
    }

    /// Decodes a signature from the front of `bytes`, with the number of bytes
    /// it took.
    pub fn decode(bytes: &[u8]) -> (r: Result<(FunctionSignature, usize), DecodeError>)
        ensures
            r is Ok ==> parse_signature(bytes@) == Ok::<(FunctionSignature, nat), DecodeError>(
                (r->Ok_0.0, r->Ok_0.1 as nat),
            ),
            r is Err ==> parse_signature(bytes@) == Err::<(FunctionSignature, nat), DecodeError>(r->Err_0),
    {
        assert(bytes@.skip(0) =~= bytes@);
        FunctionSignature::decode_at(bytes, 0)
    }
}

/// A signature's bytes read back as the signature, whatever follows them.
pub proof fn lemma_signature_round_trip(sig: FunctionSignature, rest: Seq<u8>)
    ensures
        parse_signature(signature_bytes(sig) + rest) == Ok::<(FunctionSignature, nat), DecodeError>(
            (sig, signature_bytes(sig).len()),
        ),
{
    let a = varint_bytes(sig.inputs as nat);
    let b = varint_bytes(sig.outputs as nat);
    let s = signature_bytes(sig) + rest;
    assert(s =~= a + (b + rest));
    lemma_varint_round_trip(sig.inputs as nat, U32_MAX_TAG, b + rest);
    assert(s.skip(a.len() as int) =~= b + rest);
    lemma_varint_round_trip(sig.outputs as nat, U32_MAX_TAG, rest);
}

/// Represents a single function in the bytecode.
///
/// The function takes inputs on the stack, and produces a certain number
/// of outputs.
#[derive(Clone, Debug, PartialEq, Eq)]
pub struct Function {
    /// The signature describing the inputs and the outputs of this function.
    pub signature: FunctionSignature,
    /// The operations making up the function.
    ///
    /// The function implicitly returns after reaching the last operation.
    pub operations: Vec<Operation>,
}

/// What a [`Function`] holds, as mathematical values.
pub struct FunctionModel {
    pub signature: FunctionSignature,
    pub operations: Seq<Operation>,
}

impl View for Function {
    type V = FunctionModel;

    open spec fn view(&self) -> FunctionModel {
        FunctionModel { signature: self.signature, operations: self.operations@ }
    }
}

/// Represents a program in the bytecode: what gets executed, and what proofs
/// are made for.
///
/// A program consists of a single function, which defines the input and
/// output of the program.
#[derive(Clone, Debug, PartialEq, Eq)]
pub struct Program {
    /// The main function, and entry point of the program.
    pub main: Function,
}

/// What a [`Program`] holds, as mathematical values.
pub struct ProgramModel {
    pub main: FunctionModel,
}

impl View for Program {
    type V = ProgramModel;

    open spec fn view(&self) -> ProgramModel {
        ProgramModel { main: self.main@ }
    }
}

/// The tags of `ops`, one byte each, in order.
pub open spec fn opcodes(ops: Seq<Operation>) -> Seq<u8> {
    ops.map_values(|op: Operation| opcode(op))
}

/// A function that its bytes can describe: its operation count fits a `u64`.
pub open spec fn function_fits(f: FunctionModel) -> bool {
    f.operations.len() <= u64::MAX
}

/// The bytes of a function: its signature, the number of operations, then the
/// tag of each operation.
pub open spec fn function_bytes(f: FunctionModel) -> Seq<u8> {
    signature_bytes(f.signature) + varint_bytes(f.operations.len()) + opcodes(f.operations)
}

/// The bytes of a program: those of its main function, with nothing around
/// them.
pub open spec fn program_bytes(p: ProgramModel) -> Seq<u8> {
    function_bytes(p.main)
}

/// Puts `pre` in front of the operations of a successful read.
pub open spec fn prepend(pre: Seq<Operation>, r: Result<Seq<Operation>, DecodeError>) -> Result<
    Seq<Operation>,
    DecodeError,
> {
    match r {
        Ok(ops) => Ok(pre + ops),
        Err(e) => Err(e),
    }
}

/// Reads `count` operations from the front of `s`, one byte each, failing at
/// the first byte that is missing or is no tag.
pub open spec fn parse_operations(s: Seq<u8>, count: nat) -> Result<Seq<Operation>, DecodeError>
    decreases count,
{
    if count == 0 {
        Ok(seq![])
    } else {
        match parse_operation(s) {
            Err(e) => Err(e),
            Ok((op, _)) => prepend(seq![op], parse_operations(s.drop_first(), (count - 1) as nat)),
        }
    }
}

/// Reads a function from the front of `s`, with the number of bytes it took.
pub open spec fn parse_function(s: Seq<u8>) -> Result<(FunctionModel, nat), DecodeError> {
    match parse_signature(s) {
        Err(e) => Err(e),
        Ok((sig, n1)) => match read_varint(s.skip(n1 as int), U64_MAX_TAG) {
            Err(e) => Err(e),
            Ok((count, n2)) => match parse_operations(s.skip((n1 + n2) as int), count) {
                Err(e) => Err(e),
                Ok(ops) => Ok((FunctionModel { signature: sig, operations: ops }, n1 + n2 + count)),
            },
        },
    }
}

/// Reads a program from the front of `s`, with the number of bytes it took.
pub open spec fn parse_program(s: Seq<u8>) -> Result<(ProgramModel, nat), DecodeError> {
    match parse_function(s) {
        Err(e) => Err(e),
        Ok((f, n)) => Ok((ProgramModel { main: f }, n)),
    }
}

/// One step of [`parse_operations`] at position `pos` of `s`.
proof fn lemma_parse_operations_step(s: Seq<u8>, pos: int, count: nat, done: Seq<Operation>)
    requires
        0 <= pos < s.len(),
        count > 0,
        operation_of(s[pos]) is Ok,
    ensures
        prepend(done, parse_operations(s.skip(pos), count)) == prepend(
            done.push(operation_of(s[pos])->Ok_0),
            parse_operations(s.skip(pos + 1), (count - 1) as nat),
        ),
{
    let op = operation_of(s[pos])->Ok_0;
    assert(s.skip(pos).drop_first() =~= s.skip(pos + 1));
    assert(s.skip(pos)[0] == s[pos]);
    match parse_operations(s.skip(pos + 1), (count - 1) as nat) {
        Ok(rest) => {
            assert(done + (seq![op] + rest) =~= done.push(op) + rest);
        },
        Err(_) => {},
    }
}

/// The tags of `ops` read back as `ops`, whatever follows them.
pub proof fn lemma_operations_round_trip(ops: Seq<Operation>, rest: Seq<u8>)
    ensures
        parse_operations(opcodes(ops) + rest, ops.len()) == Ok::<Seq<Operation>, DecodeError>(ops),
    decreases ops.len(),
{
    if ops.len() > 0 {
        let s = opcodes(ops) + rest;
        let tail = ops.drop_first();
        assert(s.drop_first() =~= opcodes(tail) + rest);
        assert(s[0] == opcode(ops[0]));
        assert(operation_of(opcode(ops[0])) == Ok::<Operation, DecodeError>(ops[0]));
        lemma_operations_round_trip(tail, rest);
        assert(seq![ops[0]] + tail =~= ops);
    } else {
        assert(ops =~= seq![]);
    }
}

/// A function's bytes read back as the function, whatever follows them.
pub proof fn lemma_function_round_trip(f: FunctionModel, rest: Seq<u8>)
    requires
        function_fits(f),
    ensures
        parse_function(function_bytes(f) + rest) == Ok::<(FunctionModel, nat), DecodeError>(
            (f, function_bytes(f).len()),
        ),
{
    let a = signature_bytes(f.signature);
    let b = varint_bytes(f.operations.len());
    let c = opcodes(f.operations);
    let s = function_bytes(f) + rest;
    assert(s =~= a + (b + c + rest));
    lemma_signature_round_trip(f.signature, b + c + rest);
    assert(s.skip(a.len() as int) =~= b + (c + rest));
    lemma_varint_round_trip(f.operations.len(), U64_MAX_TAG, c + rest);
    assert(s.skip((a.len() + b.len()) as int) =~= c + rest);
    lemma_operations_round_trip(f.operations, rest);
    assert(c.len() == f.operations.len());
}

impl Function {
    /// Appends the bytes of this function to `out`.
    pub fn encode_into(&self, out: &mut Vec<u8>)
        ensures
            final(out)@ == old(out)@ + function_bytes(self@),
    {
        self.signature.encode_into(out);
        let n = self.operations.len();
        put_u64(out, n as u64);
        let ghost head = out@;
        let mut i: usize = 0;
        while i < n
            invariant
                n == self.operations@.len(),
                i <= n,
                out@ == head + opcodes(self.operations@.take(i as int)),
            decreases n - i,
        {
            let code = self.operations[i].encode();
            out.push(code);
            i = i + 1;
            assert(opcodes(self.operations@.take(i as int)) =~= opcodes(
                self.operations@.take(i - 1),
            ).push(code));
        }
        assert(self.operations@.take(n as int) =~= self.operations@);
        assert(final(out)@ =~= old(out)@ + function_bytes(self@));
    }

    /// The bytes of this function.
    pub fn encode(&self) -> (r: Vec<u8>)
        ensures
            r@ == function_bytes(self@),
    {
        let mut out: Vec<u8> = Vec::new();
        self.encode_into(&mut out);
        assert(out@ =~= function_bytes(self@));
        out
    }

    /// Decodes a function starting at `pos`: the function and the position
    /// just after it.
    pub fn decode_at(bytes: &[u8], pos: usize) -> (r: Result<(Function, usize), DecodeError>)
        requires
            pos <= bytes@.len(),
        ensures
            r is Ok ==> pos <= r->Ok_0.1 <= bytes@.len() && parse_function(bytes@.skip(pos as int))
                == Ok::<(FunctionModel, nat), DecodeError>((r->Ok_0.0@, (r->Ok_0.1 - pos) as nat)),
            r is Err ==> parse_function(bytes@.skip(pos as int)) == Err::<(FunctionModel, nat), DecodeError>(
                r->Err_0,
            ),
    {
        let ghost s = bytes@.skip(pos as int);
        let (signature, mid) = match FunctionSignature::decode_at(bytes, pos) {
            Ok(p) => p,
            Err(e) => return Err(e),
        };
        assert(s.skip(mid - pos) =~= bytes@.skip(mid as int));
        let (count, start) = match get_u64(bytes, mid) {
            Ok(p) => p,
            Err(e) => return Err(e),
        };
        assert(s.skip(start - pos) =~= bytes@.skip(start as int));
        let mut operations: Vec<Operation> = Vec::new();
        let mut at = start;
        let mut i: u64 = 0;
        while i < count
            invariant
                s == bytes@.skip(pos as int),
                pos <= mid <= start,
                parse_signature(s) == Ok::<(FunctionSignature, nat), DecodeError>((signature, (mid - pos) as nat)),
                read_varint(s.skip(mid - pos), U64_MAX_TAG) == Ok::<(nat, nat), DecodeError>(
                    (count as nat, (start - mid) as nat),
                ),
                s.skip(start - pos) == bytes@.skip(start as int),
                start <= at <= bytes@.len(),
                at - start == i,
                i <= count,
                parse_operations(bytes@.skip(start as int), count as nat) == prepend(
                    operations@,
                    parse_operations(bytes@.skip(at as int), (count - i) as nat),
                ),
            decreases count - i,
        {
            if at >= bytes.len() {
                return Err(DecodeError::UnexpectedEnd);
            }
            let op = match Operation::from_opcode(bytes[at]) {
                Ok(op) => op,
                Err(e) => return Err(e),
            };
            proof {
                lemma_parse_operations_step(bytes@, at as int, (count - i) as nat, operations@);
            }
            operations.push(op);
            at = at + 1;
            i = i + 1;
        }
        assert(operations@ + seq![] =~= operations@);
        Ok((Function { signature, operations }, at))
    }

    /// Decodes a function from the front of `bytes`, with the number of bytes
    /// it took.
    pub fn decode(bytes: &[u8]) -> (r: Result<(Function, usize), DecodeError>)
        ensures
            r is Ok ==> parse_function(bytes@) == Ok::<(FunctionModel, nat), DecodeError>(
                (r->Ok_0.0@, r->Ok_0.1 as nat),
            ),
            r is Err ==> parse_function(bytes@) == Err::<(FunctionModel, nat), DecodeError>(r->Err_0),
    {
        assert(bytes@.skip(0) =~= bytes@);
        Function::decode_at(bytes, 0)
    }
}

impl Program {
    /// The bytes of this program.
    pub fn encode(&self) -> (r: Vec<u8>)
        ensures
            r@ == program_bytes(self@),
    {
        self.main.encode()
    }

    /// Decodes a program from the front of `bytes`, with the number of bytes
    /// it took. Bytes after the program are left for the caller to judge.
    pub fn decode(bytes: &[u8]) -> (r: Result<(Program, usize), DecodeError>)
        ensures
            r is Ok ==> parse_program(bytes@) == Ok::<(ProgramModel, nat), DecodeError>(
                (r->Ok_0.0@, r->Ok_0.1 as nat),
            ),
            r is Err ==> parse_program(bytes@) == Err::<(ProgramModel, nat), DecodeError>(r->Err_0),
    {
        match Function::decode(bytes) {
            Ok((main, n)) => Ok((Program { main }, n)),
            Err(e) => Err(e),
        }
    }
}

/// Decoding the bytes of a program gives back that program, and takes all of
/// its bytes.
pub proof fn lemma_program_round_trip(p: ProgramModel)
    requires
        function_fits(p.main),
    ensures
        parse_program(program_bytes(p)) == Ok::<(ProgramModel, nat), DecodeError>(
            (p, program_bytes(p).len()),
        ),
{
    lemma_function_round_trip(p.main, seq![]);
    assert(function_bytes(p.main) + seq![] =~= function_bytes(p.main));
}

/// Each operation's tag reads back as that operation, and no two operations
/// share a tag.
pub proof fn lemma_opcode_table(a: Operation, b: Operation)
    ensures
        operation_of(opcode(a)) == Ok::<Operation, DecodeError>(a),
        opcode(a) == opcode(b) ==> a == b,
{
}

/// A buffer whose first byte is no operation's tag does not decode as an
/// operation: the error names that byte.
pub proof fn lemma_unknown_opcode_rejected(s: Seq<u8>)
    requires
        s.len() > 0,
        s[0] != XOR_OPCODE,
        s[0] != AND_OPCODE,
    ensures
        parse_operation(s) == Err::<(Operation, nat), DecodeError>(DecodeError::InvalidOpcode(s[0])),
{
}

/// A proper prefix of a signature's bytes reads as
/// [`DecodeError::UnexpectedEnd`].
proof fn lemma_signature_truncated(sig: FunctionSignature, k: nat)
    requires
        k < signature_bytes(sig).len(),
    ensures
        parse_signature(signature_bytes(sig).take(k as int)) == Err::<(FunctionSignature, nat), DecodeError>(
            DecodeError::UnexpectedEnd,
        ),
{
    let a = varint_bytes(sig.inputs as nat);
    let b = varint_bytes(sig.outputs as nat);
    let t = signature_bytes(sig).take(k as int);
    if k < a.len() {
        assert(t =~= a.take(k as int));
        lemma_varint_truncated(sig.inputs as nat, U32_MAX_TAG, k);
    } else {
        let j = (k - a.len()) as nat;
        assert(t =~= a + b.take(j as int));
        lemma_varint_round_trip(sig.inputs as nat, U32_MAX_TAG, b.take(j as int));
        assert(t.skip(a.len() as int) =~= b.take(j as int));
        lemma_varint_truncated(sig.outputs as nat, U32_MAX_TAG, j);
    }
}

/// Fewer tag bytes than operations read as [`DecodeError::UnexpectedEnd`].
proof fn lemma_operations_truncated(ops: Seq<Operation>, k: nat)
    requires
        k < ops.len(),
    ensures
        parse_operations(opcodes(ops).take(k as int), ops.len()) == Err::<Seq<Operation>, DecodeError>(
            DecodeError::UnexpectedEnd,
        ),
    decreases ops.len(),
{
    let t = opcodes(ops).take(k as int);
    if k > 0 {
        let tail = ops.drop_first();
        assert(t[0] == opcode(ops[0]));
        assert(operation_of(opcode(ops[0])) == Ok::<Operation, DecodeError>(ops[0]));
        assert(t.drop_first() =~= opcodes(tail).take(k - 1));
        lemma_operations_truncated(tail, (k - 1) as nat);
    }
}

/// Every proper prefix of a program's bytes fails to decode with
/// [`DecodeError::UnexpectedEnd`]: no partly filled program comes out.
pub proof fn lemma_program_truncated(p: ProgramModel, k: nat)
    requires
        function_fits(p.main),
        k < program_bytes(p).len(),
    ensures
        parse_program(program_bytes(p).take(k as int)) == Err::<(ProgramModel, nat), DecodeError>(
            DecodeError::UnexpectedEnd,
        ),
{
    let f = p.main;
    let a = signature_bytes(f.signature);
    let b = varint_bytes(f.operations.len());
    let c = opcodes(f.operations);
    let t = program_bytes(p).take(k as int);
    if k < a.len() {
        assert(t =~= a.take(k as int));
        lemma_signature_truncated(f.signature, k);
    } else if k < a.len() + b.len() {
        let j = (k - a.len()) as nat;
        assert(t =~= a + b.take(j as int));
        lemma_signature_round_trip(f.signature, b.take(j as int));
        assert(t.skip(a.len() as int) =~= b.take(j as int));
        lemma_varint_truncated(f.operations.len(), U64_MAX_TAG, j);
    } else {
        let j = (k - a.len() - b.len()) as nat;
        assert(t =~= a + (b + c.take(j as int)));
        lemma_signature_round_trip(f.signature, b + c.take(j as int));
        assert(t.skip(a.len() as int) =~= b + c.take(j as int));
        lemma_varint_round_trip(f.operations.len(), U64_MAX_TAG, c.take(j as int));
        assert(t.skip((a.len() + b.len()) as int) =~= c.take(j as int));
        lemma_operations_truncated(f.operations, j);
    }
}

} // verus!
