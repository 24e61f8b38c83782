//! The closed opcode table of the virtual machine: each operation has a
//! fixed one-byte wire identity, a display name, and a case-insensitive
//! source mnemonic.
use vstd::prelude::*;

verus! {

/// One operation of the virtual machine's fixed instruction set.  The
/// declaration order fixes each opcode's one-byte wire identity (see
/// `wire_byte`).
#[allow(clippy::upper_case_acronyms)]
#[derive(Clone, Copy, Debug, PartialEq, Eq, Structural)]
pub enum Opcode {
    ADD,
    SUB,
    MUL,
    DIV,
    FDIV,
    EQ,
    LT,
    LTE,
    AND,
    OR,
    XOR,
    NOT,
    SHL,
    SHR,
    CAST,
    ADDRESS,
    STORAGEADDRESS,
    SENDER,
    FEEPERL2GAS,
    FEEPERDAGAS,
    TRANSACTIONFEE,
    CONTRACTCALLDEPTH,
    CHAINID,
    VERSION,
    BLOCKNUMBER,
    TIMESTAMP,
    COINBASE,
    BLOCKL2GASLIMIT,
    BLOCKDAGASLIMIT,
    CALLDATACOPY,
    L2GASLEFT,
    DAGASLEFT,
    JUMP,
    JUMPI,
    INTERNALCALL,
    INTERNALRETURN,
    SET,
    MOV,
    CMOV,
    SLOAD,
    SSTORE,
    NOTEHASHEXISTS,
    EMITNOTEHASH,
    NULLIFIEREXISTS,
    EMITNULLIFIER,
    L1TOL2MSGEXISTS,
    HEADERMEMBER,
    GETCONTRACTINSTANCE,
    EMITUNENCRYPTEDLOG,
    SENDL2TOL1MSG,
    CALL,
    STATICCALL,
    DELEGATECALL,
    RETURN,
    REVERT,
    DEBUGLOG,
    KECCAK,
    POSEIDON2,
    SHA256,
    PEDERSEN,
    ECADD,
    MSM,
    TORADIXLE,
}

/// Maps an ASCII upper-case letter to its lower-case form and leaves
/// every other character unchanged.
pub open spec fn lower_char(c: char) -> char {
    match c {
        'A' => 'a',
        'B' => 'b',
        'C' => 'c',
        'D' => 'd',
        'E' => 'e',
        'F' => 'f',
        'G' => 'g',
        'H' => 'h',
        'I' => 'i',
        'J' => 'j',
        'K' => 'k',
        'L' => 'l',
        'M' => 'm',
        'N' => 'n',
        'O' => 'o',
        'P' => 'p',
        'Q' => 'q',
        'R' => 'r',
        'S' => 's',
        'T' => 't',
        'U' => 'u',
        'V' => 'v',
        'W' => 'w',
        'X' => 'x',
        'Y' => 'y',
        'Z' => 'z',
        _ => c,
    }
}

/// The character sequence `s` with every ASCII upper-case letter lowered.
pub open spec fn lower_seq(s: Seq<char>) -> Seq<char> {
    s.map_values(|c: char| lower_char(c))
}

/// Executable form of `lower_char`.
pub fn lower_char_exec(c: char) -> (r: char)
    ensures
        r == lower_char(c),
{
    match c {
        'A' => 'a',
        'B' => 'b',
        'C' => 'c',
        'D' => 'd',
        'E' => 'e',
        'F' => 'f',
        'G' => 'g',
        'H' => 'h',
        'I' => 'i',
        'J' => 'j',
        'K' => 'k',
        'L' => 'l',
        'M' => 'm',
        'N' => 'n',
        'O' => 'o',
        'P' => 'p',
        'Q' => 'q',
        'R' => 'r',
        'S' => 's',
        'T' => 't',
        'U' => 'u',
        'V' => 'v',
        'W' => 'w',
        'X' => 'x',
        'Y' => 'y',
        'Z' => 'z',
        _ => c,
    }
}

/// Compares two strings character by character.
pub fn str_eq(a: &str, b: &str) -> (r: bool)
    ensures
        r == (a@ == b@),
{
    let alen = a.unicode_len();
    let blen = b.unicode_len();
    if alen != blen {
        return false;
    }
    let mut i: usize = 0;
    while i < alen
        invariant
            alen == a@.len(),
            blen == b@.len(),
            alen == blen,
            i <= alen,
            forall|j: int| 0 <= j < i ==> a@[j] == b@[j],
        decreases alen - i,
    {
        if a.get_char(i) != b.get_char(i) {
            return false;
        }
        i += 1;
    }
    proof {
        assert(a@ =~= b@);
    }
    true
}

/// Compares two strings up to ASCII case.
pub fn str_eq_ci(a: &str, b: &str) -> (r: bool)
    ensures
        r == (lower_seq(a@) == lower_seq(b@)),
{
    let alen = a.unicode_len();
    let blen = b.unicode_len();
    if alen != blen {
        proof {
            assert(lower_seq(a@).len() == a@.len());
            assert(lower_seq(b@).len() == b@.len());
        }
        return false;
    }
    let mut i: usize = 0;
    while i < alen
        invariant
            alen == a@.len(),
            blen == b@.len(),
            alen == blen,
            i <= alen,
            forall|j: int| 0 <= j < i ==> lower_char(a@[j]) == lower_char(b@[j]),
        decreases alen - i,
    {
        if lower_char_exec(a.get_char(i)) != lower_char_exec(b.get_char(i)) {
            proof {
                assert(lower_seq(a@)[i as int] != lower_seq(b@)[i as int]);
            }
            return false;
        }
        i += 1;
    }
    proof {
        assert(lower_seq(a@) =~= lower_seq(b@));
    }
    true
}

impl Opcode {
    /// The display name of this opcode.
    pub open spec fn spec_name(&self) -> Seq<char> {
        match self {
            Opcode::ADD => "ADD"@,
            Opcode::SUB => "SUB"@,
            Opcode::MUL => "MUL"@,
            Opcode::DIV => "DIV"@,
            Opcode::FDIV => "FDIV"@,
            Opcode::EQ => "EQ"@,
            Opcode::LT => "LT"@,
            Opcode::LTE => "LTE"@,
            Opcode::AND => "AND"@,
            Opcode::OR => "OR"@,
            Opcode::XOR => "XOR"@,
            Opcode::NOT => "NOT"@,
            Opcode::SHL => "SHL"@,
            Opcode::SHR => "SHR"@,
            Opcode::CAST => "CAST"@,
            Opcode::ADDRESS => "ADDRESS"@,
            Opcode::STORAGEADDRESS => "STORAGEADDRESS"@,
            Opcode::SENDER => "SENDER"@,
            Opcode::FEEPERL2GAS => "FEEPERL2GAS"@,
            Opcode::FEEPERDAGAS => "FEEPERDAGAS"@,
            Opcode::TRANSACTIONFEE => "TRANSACTIONFEE"@,
            Opcode::CONTRACTCALLDEPTH => "CONTRACTCALLDEPTH"@,
            Opcode::CHAINID => "CHAINID"@,
            Opcode::VERSION => "VERSION"@,
            Opcode::BLOCKNUMBER => "BLOCKNUMBER"@,
            Opcode::TIMESTAMP => "TIMESTAMP"@,
            Opcode::COINBASE => "COINBASE"@,
            Opcode::BLOCKL2GASLIMIT => "BLOCKL2GASLIMIT"@,
            Opcode::BLOCKDAGASLIMIT => "BLOCKDAGASLIMIT"@,
            Opcode::CALLDATACOPY => "CALLDATACOPY"@,
            Opcode::L2GASLEFT => "L2GASLEFT"@,
            Opcode::DAGASLEFT => "DAGASLEFT"@,
            Opcode::JUMP => "JUMP"@,
            Opcode::JUMPI => "JUMPI"@,
            Opcode::INTERNALCALL => "INTERNALCALL"@,
            Opcode::INTERNALRETURN => "INTERNALRETURN"@,
            Opcode::SET => "SET"@,
            Opcode::MOV => "MOV"@,
            Opcode::CMOV => "CMOV"@,
            Opcode::SLOAD => "SLOAD"@,
            Opcode::SSTORE => "SSTORE"@,
            Opcode::NOTEHASHEXISTS => "NOTEHASHEXISTS"@,
            Opcode::EMITNOTEHASH => "EMITNOTEHASH"@,
            Opcode::NULLIFIEREXISTS => "NULLIFIEREXISTS"@,
            Opcode::EMITNULLIFIER => "EMITNULLIFIER"@,
            Opcode::L1TOL2MSGEXISTS => "L1TOL2MSGEXISTS"@,
            Opcode::HEADERMEMBER => "HEADERMEMBER"@,
            Opcode::GETCONTRACTINSTANCE => "GETCONTRACTINSTANCE"@,
            Opcode::EMITUNENCRYPTEDLOG => "EMITUNENCRYPTEDLOG"@,
            Opcode::SENDL2TOL1MSG => "SENDL2TOL1MSG"@,
            Opcode::CALL => "CALL"@,
            Opcode::STATICCALL => "STATICCALL"@,
            Opcode::DELEGATECALL => "DELEGATECALL"@,
            Opcode::RETURN => "RETURN"@,
            Opcode::REVERT => "REVERT"@,
            Opcode::DEBUGLOG => "DEBUGLOG"@,
            Opcode::KECCAK => "KECCAK"@,
            Opcode::POSEIDON2 => "POSEIDON2"@,
            Opcode::SHA256 => "SHA256 "@,
            Opcode::PEDERSEN => "PEDERSEN"@,
            Opcode::ECADD => "ECADD"@,
            Opcode::MSM => "MSM"@,
            Opcode::TORADIXLE => "TORADIXLE"@,
        }
    }

    pub fn name(&self) -> (r: &'static str)
        ensures
            r@ == self.spec_name(),
    {
        match self {
            Opcode::ADD => "ADD",
            Opcode::SUB => "SUB",
            Opcode::MUL => "MUL",
            Opcode::DIV => "DIV",
            Opcode::FDIV => "FDIV",
            Opcode::EQ => "EQ",
            Opcode::LT => "LT",
            Opcode::LTE => "LTE",
            Opcode::AND => "AND",
            Opcode::OR => "OR",
            Opcode::XOR => "XOR",
            Opcode::NOT => "NOT",
            Opcode::SHL => "SHL",
            Opcode::SHR => "SHR",
            Opcode::CAST => "CAST",
            Opcode::ADDRESS => "ADDRESS",
            Opcode::STORAGEADDRESS => "STORAGEADDRESS",
            Opcode::SENDER => "SENDER",
            Opcode::FEEPERL2GAS => "FEEPERL2GAS",
            Opcode::FEEPERDAGAS => "FEEPERDAGAS",
            Opcode::TRANSACTIONFEE => "TRANSACTIONFEE",
            Opcode::CONTRACTCALLDEPTH => "CONTRACTCALLDEPTH",
            Opcode::CHAINID => "CHAINID",
            Opcode::VERSION => "VERSION",
            Opcode::BLOCKNUMBER => "BLOCKNUMBER",
            Opcode::TIMESTAMP => "TIMESTAMP",
            Opcode::COINBASE => "COINBASE",
            Opcode::BLOCKL2GASLIMIT => "BLOCKL2GASLIMIT",
            Opcode::BLOCKDAGASLIMIT => "BLOCKDAGASLIMIT",
            Opcode::CALLDATACOPY => "CALLDATACOPY",
            Opcode::L2GASLEFT => "L2GASLEFT",
            Opcode::DAGASLEFT => "DAGASLEFT",
            Opcode::JUMP => "JUMP",
            Opcode::JUMPI => "JUMPI",
            Opcode::INTERNALCALL => "INTERNALCALL",
            Opcode::INTERNALRETURN => "INTERNALRETURN",
            Opcode::SET => "SET",
            Opcode::MOV => "MOV",
            Opcode::CMOV => "CMOV",
            Opcode::SLOAD => "SLOAD",
            Opcode::SSTORE => "SSTORE",
            Opcode::NOTEHASHEXISTS => "NOTEHASHEXISTS",
            Opcode::EMITNOTEHASH => "EMITNOTEHASH",
            Opcode::NULLIFIEREXISTS => "NULLIFIEREXISTS",
            Opcode::EMITNULLIFIER => "EMITNULLIFIER",
            Opcode::L1TOL2MSGEXISTS => "L1TOL2MSGEXISTS",
            Opcode::HEADERMEMBER => "HEADERMEMBER",
            Opcode::GETCONTRACTINSTANCE => "GETCONTRACTINSTANCE",
            Opcode::EMITUNENCRYPTEDLOG => "EMITUNENCRYPTEDLOG",
            Opcode::SENDL2TOL1MSG => "SENDL2TOL1MSG",
            Opcode::CALL => "CALL",
            Opcode::STATICCALL => "STATICCALL",
            Opcode::DELEGATECALL => "DELEGATECALL",
            Opcode::RETURN => "RETURN",
            Opcode::REVERT => "REVERT",
            Opcode::DEBUGLOG => "DEBUGLOG",
            Opcode::KECCAK => "KECCAK",
            Opcode::POSEIDON2 => "POSEIDON2",
            Opcode::SHA256 => "SHA256 ",
            Opcode::PEDERSEN => "PEDERSEN",
            Opcode::ECADD => "ECADD",
            Opcode::MSM => "MSM",
            Opcode::TORADIXLE => "TORADIXLE",
        }
    }

    /// The one-byte numeric identity of this opcode on the wire.
    pub open spec fn spec_wire_byte(&self) -> u8 {
        match self {
            Opcode::ADD => 0,
            Opcode::SUB => 1,
            Opcode::MUL => 2,
            Opcode::DIV => 3,
            Opcode::FDIV => 4,
            Opcode::EQ => 5,
            Opcode::LT => 6,
            Opcode::LTE => 7,
            Opcode::AND => 8,
            Opcode::OR => 9,
            Opcode::XOR => 10,
            Opcode::NOT => 11,
            Opcode::SHL => 12,
            Opcode::SHR => 13,
            Opcode::CAST => 14,
            Opcode::ADDRESS => 15,
            Opcode::STORAGEADDRESS => 16,
            Opcode::SENDER => 17,
            Opcode::FEEPERL2GAS => 18,
            Opcode::FEEPERDAGAS => 19,
            Opcode::TRANSACTIONFEE => 20,
            Opcode::CONTRACTCALLDEPTH => 21,
            Opcode::CHAINID => 22,
            Opcode::VERSION => 23,
            Opcode::BLOCKNUMBER => 24,
            Opcode::TIMESTAMP => 25,
            Opcode::COINBASE => 26,
            Opcode::BLOCKL2GASLIMIT => 27,
            Opcode::BLOCKDAGASLIMIT => 28,
            Opcode::CALLDATACOPY => 29,
            Opcode::L2GASLEFT => 30,
            Opcode::DAGASLEFT => 31,
            Opcode::JUMP => 32,
            Opcode::JUMPI => 33,
            Opcode::INTERNALCALL => 34,
            Opcode::INTERNALRETURN => 35,
            Opcode::SET => 36,
            Opcode::MOV => 37,
            Opcode::CMOV => 38,
            Opcode::SLOAD => 39,
            Opcode::SSTORE => 40,
            Opcode::NOTEHASHEXISTS => 41,
            Opcode::EMITNOTEHASH => 42,
            Opcode::NULLIFIEREXISTS => 43,
            Opcode::EMITNULLIFIER => 44,
            Opcode::L1TOL2MSGEXISTS => 45,
            Opcode::HEADERMEMBER => 46,
            Opcode::GETCONTRACTINSTANCE => 47,
            Opcode::EMITUNENCRYPTEDLOG => 48,
            Opcode::SENDL2TOL1MSG => 49,
            Opcode::CALL => 50,
            Opcode::STATICCALL => 51,
            Opcode::DELEGATECALL => 52,
            Opcode::RETURN => 53,
            Opcode::REVERT => 54,
            Opcode::DEBUGLOG => 55,
            Opcode::KECCAK => 56,
            Opcode::POSEIDON2 => 57,
            Opcode::SHA256 => 58,
            Opcode::PEDERSEN => 59,
            Opcode::ECADD => 60,
            Opcode::MSM => 61,
            Opcode::TORADIXLE => 62,
        }
    }

    pub fn wire_byte(&self) -> (r: u8)
        ensures
            r == self.spec_wire_byte(),
    {
        match self {
            Opcode::ADD => 0,
            Opcode::SUB => 1,
            Opcode::MUL => 2,
            Opcode::DIV => 3,
            Opcode::FDIV => 4,
            Opcode::EQ => 5,
            Opcode::LT => 6,
            Opcode::LTE => 7,
            Opcode::AND => 8,
            Opcode::OR => 9,
            Opcode::XOR => 10,
            Opcode::NOT => 11,
            Opcode::SHL => 12,
            Opcode::SHR => 13,
            Opcode::CAST => 14,
            Opcode::ADDRESS => 15,
            Opcode::STORAGEADDRESS => 16,
            Opcode::SENDER => 17,
            Opcode::FEEPERL2GAS => 18,
            Opcode::FEEPERDAGAS => 19,
            Opcode::TRANSACTIONFEE => 20,
            Opcode::CONTRACTCALLDEPTH => 21,
            Opcode::CHAINID => 22,
            Opcode::VERSION => 23,
            Opcode::BLOCKNUMBER => 24,
            Opcode::TIMESTAMP => 25,
            Opcode::COINBASE => 26,
            Opcode::BLOCKL2GASLIMIT => 27,
            Opcode::BLOCKDAGASLIMIT => 28,
            Opcode::CALLDATACOPY => 29,
            Opcode::L2GASLEFT => 30,
            Opcode::DAGASLEFT => 31,
            Opcode::JUMP => 32,
            Opcode::JUMPI => 33,
            Opcode::INTERNALCALL => 34,
            Opcode::INTERNALRETURN => 35,
            Opcode::SET => 36,
            Opcode::MOV => 37,
            Opcode::CMOV => 38,
            Opcode::SLOAD => 39,
            Opcode::SSTORE => 40,
            Opcode::NOTEHASHEXISTS => 41,
            Opcode::EMITNOTEHASH => 42,
            Opcode::NULLIFIEREXISTS => 43,
            Opcode::EMITNULLIFIER => 44,
            Opcode::L1TOL2MSGEXISTS => 45,
            Opcode::HEADERMEMBER => 46,
            Opcode::GETCONTRACTINSTANCE => 47,
            Opcode::EMITUNENCRYPTEDLOG => 48,
            Opcode::SENDL2TOL1MSG => 49,
            Opcode::CALL => 50,
            Opcode::STATICCALL => 51,
            Opcode::DELEGATECALL => 52,
            Opcode::RETURN => 53,
            Opcode::REVERT => 54,
            Opcode::DEBUGLOG => 55,
            Opcode::KECCAK => 56,
            Opcode::POSEIDON2 => 57,
            Opcode::SHA256 => 58,
            Opcode::PEDERSEN => 59,
            Opcode::ECADD => 60,
            Opcode::MSM => 61,
            Opcode::TORADIXLE => 62,
        }
    }

    /// Whether this opcode carries a type tag as its first operand.
    pub open spec fn spec_has_tag(&self) -> bool {
        self == Opcode::CAST || self == Opcode::SET
    }

    pub fn has_tag(&self) -> (r: bool)
        ensures
            r == self.spec_has_tag(),
    {
        match self {
            Opcode::CAST | Opcode::SET => true,
            _ => false,
        }
    }

    /// The opcode whose source mnemonic matches `s` up to ASCII case.
    pub open spec fn spec_from_mnemonic(s: Seq<char>) -> Option<Opcode> {
        if lower_seq(s) == lower_seq("add"@) {
            Some(Opcode::ADD)
        } else if lower_seq(s) == lower_seq("sub"@) {
            Some(Opcode::SUB)
        } else if lower_seq(s) == lower_seq("mul"@) {
            Some(Opcode::MUL)
        } else if lower_seq(s) == lower_seq("div"@) {
            Some(Opcode::DIV)
        } else if lower_seq(s) == lower_seq("fdiv"@) {
            Some(Opcode::FDIV)
        } else if lower_seq(s) == lower_seq("eq"@) {
            Some(Opcode::EQ)
        } else if lower_seq(s) == lower_seq("lt"@) {
            Some(Opcode::LT)
        } else if lower_seq(s) == lower_seq("lte"@) {
            Some(Opcode::LTE)
        } else if lower_seq(s) == lower_seq("and"@) {
            Some(Opcode::AND)
        } else if lower_seq(s) == lower_seq("or"@) {
            Some(Opcode::OR)
        } else if lower_seq(s) == lower_seq("xor"@) {
            Some(Opcode::XOR)
        } else if lower_seq(s) == lower_seq("not"@) {
            Some(Opcode::NOT)
        } else if lower_seq(s) == lower_seq("shl"@) {
            Some(Opcode::SHL)
        } else if lower_seq(s) == lower_seq("shr"@) {
            Some(Opcode::SHR)
        } else if lower_seq(s) == lower_seq("cast"@) {
            Some(Opcode::CAST)
        } else if lower_seq(s) == lower_seq("address"@) {
            Some(Opcode::ADDRESS)
        } else if lower_seq(s) == lower_seq("storageaddress"@) {
            Some(Opcode::STORAGEADDRESS)
        } else if lower_seq(s) == lower_seq("sender"@) {
            Some(Opcode::SENDER)
        } else if lower_seq(s) == lower_seq("feeperl2gas"@) {
            Some(Opcode::FEEPERL2GAS)
        } else if lower_seq(s) == lower_seq("feeperdagas"@) {
            Some(Opcode::FEEPERDAGAS)
        } else if lower_seq(s) == lower_seq("transactionfee"@) {
            Some(Opcode::TRANSACTIONFEE)
        } else if lower_seq(s) == lower_seq("contractcalldepth"@) {
            Some(Opcode::CONTRACTCALLDEPTH)
        } else if lower_seq(s) == lower_seq("chainid"@) {
            Some(Opcode::CHAINID)
        } else if lower_seq(s) == lower_seq("version"@) {
            Some(Opcode::VERSION)
        } else if lower_seq(s) == lower_seq("blocknumber"@) {
            Some(Opcode::BLOCKNUMBER)
        } else if lower_seq(s) == lower_seq("timestamp"@) {
            Some(Opcode::TIMESTAMP)
        } else if lower_seq(s) == lower_seq("coinbase"@) {
            Some(Opcode::COINBASE)
        } else if lower_seq(s) == lower_seq("blockl2gaslimit"@) {
            Some(Opcode::BLOCKL2GASLIMIT)
        } else if lower_seq(s) == lower_seq("blockdagaslimit"@) {
            Some(Opcode::BLOCKDAGASLIMIT)
        } else if lower_seq(s) == lower_seq("calldatacopy"@) {
            Some(Opcode::CALLDATACOPY)
        } else if lower_seq(s) == lower_seq("l2gasleft"@) {
            Some(Opcode::L2GASLEFT)
        } else if lower_seq(s) == lower_seq("dagasleft"@) {
            Some(Opcode::DAGASLEFT)
        } else if lower_seq(s) == lower_seq("jump"@) {
            Some(Opcode::JUMP)
        } else if lower_seq(s) == lower_seq("jumpi"@) {
            Some(Opcode::JUMPI)
        } else if lower_seq(s) == lower_seq("internalcall"@) {
            Some(Opcode::INTERNALCALL)
        } else if lower_seq(s) == lower_seq("internalreturn"@) {
            Some(Opcode::INTERNALRETURN)
        } else if lower_seq(s) == lower_seq("set"@) {
            Some(Opcode::SET)
        } else if lower_seq(s) == lower_seq("mov"@) {
            Some(Opcode::MOV)
        } else if lower_seq(s) == lower_seq("cmov"@) {
            Some(Opcode::CMOV)
        } else if lower_seq(s) == lower_seq("sload"@) {
            Some(Opcode::SLOAD)
        } else if lower_seq(s) == lower_seq("sstore"@) {
            Some(Opcode::SSTORE)
        } else if lower_seq(s) == lower_seq("notehashexists"@) {
            Some(Opcode::NOTEHASHEXISTS)
        } else if lower_seq(s) == lower_seq("emitnotehash"@) {
            Some(Opcode::EMITNOTEHASH)
        } else if lower_seq(s) == lower_seq("nullifierexists"@) {
            Some(Opcode::NULLIFIEREXISTS)
        } else if lower_seq(s) == lower_seq("emitnullifier"@) {
            Some(Opcode::EMITNULLIFIER)
        } else if lower_seq(s) == lower_seq("l1tol2msgexists"@) {
            Some(Opcode::L1TOL2MSGEXISTS)
        } else if lower_seq(s) == lower_seq("headermember"@) {
            Some(Opcode::HEADERMEMBER)
        } else if lower_seq(s) == lower_seq("getcontractinstance"@) {
            Some(Opcode::GETCONTRACTINSTANCE)
        } else if lower_seq(s) == lower_seq("emitunencryptedlog"@) {
            Some(Opcode::EMITUNENCRYPTEDLOG)
        } else if lower_seq(s) == lower_seq("sendl2tol1msg"@) {
            Some(Opcode::SENDL2TOL1MSG)
        } else if lower_seq(s) == lower_seq("call"@) {
            Some(Opcode::CALL)
        } else if lower_seq(s) == lower_seq("staticcall"@) {
            Some(Opcode::STATICCALL)
        } else if lower_seq(s) == lower_seq("delegatecall"@) {
            Some(Opcode::DELEGATECALL)
        } else if lower_seq(s) == lower_seq("return"@) {
            Some(Opcode::RETURN)
        } else if lower_seq(s) == lower_seq("revert"@) {
            Some(Opcode::REVERT)
        } else if lower_seq(s) == lower_seq("debuglog"@) {
            Some(Opcode::DEBUGLOG)
        } else if lower_seq(s) == lower_seq("keccak"@) {
            Some(Opcode::KECCAK)
        } else if lower_seq(s) == lower_seq("poseidon2"@) {
            Some(Opcode::POSEIDON2)
        } else if lower_seq(s) == lower_seq("sha256"@) {
            Some(Opcode::SHA256)
        } else if lower_seq(s) == lower_seq("pedersen"@) {
            Some(Opcode::PEDERSEN)
        } else if lower_seq(s) == lower_seq("ecadd"@) {
            Some(Opcode::ECADD)
        } else if lower_seq(s) == lower_seq("msm"@) {
            Some(Opcode::MSM)
        } else if lower_seq(s) == lower_seq("toradixle"@) {
            Some(Opcode::TORADIXLE)
        } else {
            None
        }
    }

    pub fn from_mnemonic(s: &str) -> (r: Option<Opcode>)
        ensures
            r == Opcode::spec_from_mnemonic(s@),
    {
        if str_eq_ci(s, "add") {
            Some(Opcode::ADD)
        } else if str_eq_ci(s, "sub") {
            Some(Opcode::SUB)
        } else if str_eq_ci(s, "mul") {
            Some(Opcode::MUL)
        } else if str_eq_ci(s, "div") {
            Some(Opcode::DIV)
        } else if str_eq_ci(s, "fdiv") {
            Some(Opcode::FDIV)
        } else if str_eq_ci(s, "eq") {
            Some(Opcode::EQ)
        } else if str_eq_ci(s, "lt") {
            Some(Opcode::LT)
        } else if str_eq_ci(s, "lte") {
            Some(Opcode::LTE)
        } else if str_eq_ci(s, "and") {
            Some(Opcode::AND)
        } else if str_eq_ci(s, "or") {
            Some(Opcode::OR)
        } else if str_eq_ci(s, "xor") {
            Some(Opcode::XOR)
        } else if str_eq_ci(s, "not") {
            Some(Opcode::NOT)
        } else if str_eq_ci(s, "shl") {
            Some(Opcode::SHL)
        } else if str_eq_ci(s, "shr") {
            Some(Opcode::SHR)
        } else if str_eq_ci(s, "cast") {
            Some(Opcode::CAST)
        } else if str_eq_ci(s, "address") {
            Some(Opcode::ADDRESS)
        } else if str_eq_ci(s, "storageaddress") {
            Some(Opcode::STORAGEADDRESS)
        } else if str_eq_ci(s, "sender") {
            Some(Opcode::SENDER)
        } else if str_eq_ci(s, "feeperl2gas") {
            Some(Opcode::FEEPERL2GAS)
        } else if str_eq_ci(s, "feeperdagas") {
            Some(Opcode::FEEPERDAGAS)
        } else if str_eq_ci(s, "transactionfee") {
            Some(Opcode::TRANSACTIONFEE)
        } else if str_eq_ci(s, "contractcalldepth") {
            Some(Opcode::CONTRACTCALLDEPTH)
        } else if str_eq_ci(s, "chainid") {
            Some(Opcode::CHAINID)
        } else if str_eq_ci(s, "version") {
            Some(Opcode::VERSION)
        } else if str_eq_ci(s, "blocknumber") {
            Some(Opcode::BLOCKNUMBER)
        } else if str_eq_ci(s, "timestamp") {
            Some(Opcode::TIMESTAMP)
        } else if str_eq_ci(s, "coinbase") {
            Some(Opcode::COINBASE)
        } else if str_eq_ci(s, "blockl2gaslimit") {
            Some(Opcode::BLOCKL2GASLIMIT)
        } else if str_eq_ci(s, "blockdagaslimit") {
            Some(Opcode::BLOCKDAGASLIMIT)
        } else if str_eq_ci(s, "calldatacopy") {
            Some(Opcode::CALLDATACOPY)
        } else if str_eq_ci(s, "l2gasleft") {
            Some(Opcode::L2GASLEFT)
        } else if str_eq_ci(s, "dagasleft") {
            Some(Opcode::DAGASLEFT)
        } else if str_eq_ci(s, "jump") {
            Some(Opcode::JUMP)
        } else if str_eq_ci(s, "jumpi") {
            Some(Opcode::JUMPI)
        } else if str_eq_ci(s, "internalcall") {
            Some(Opcode::INTERNALCALL)
        } else if str_eq_ci(s, "internalreturn") {
            Some(Opcode::INTERNALRETURN)
        } else if str_eq_ci(s, "set") {
            Some(Opcode::SET)
        } else if str_eq_ci(s, "mov") {
            Some(Opcode::MOV)
        } else if str_eq_ci(s, "cmov") {
            Some(Opcode::CMOV)
        } else if str_eq_ci(s, "sload") {
            Some(Opcode::SLOAD)
        } else if str_eq_ci(s, "sstore") {
            Some(Opcode::SSTORE)
        } else if str_eq_ci(s, "notehashexists") {
            Some(Opcode::NOTEHASHEXISTS)
        } else if str_eq_ci(s, "emitnotehash") {
            Some(Opcode::EMITNOTEHASH)
        } else if str_eq_ci(s, "nullifierexists") {
            Some(Opcode::NULLIFIEREXISTS)
        } else if str_eq_ci(s, "emitnullifier") {
            Some(Opcode::EMITNULLIFIER)
        } else if str_eq_ci(s, "l1tol2msgexists") {
            Some(Opcode::L1TOL2MSGEXISTS)
        } else if str_eq_ci(s, "headermember") {
            Some(Opcode::HEADERMEMBER)
        } else if str_eq_ci(s, "getcontractinstance") {
            Some(Opcode::GETCONTRACTINSTANCE)
        } else if str_eq_ci(s, "emitunencryptedlog") {
            Some(Opcode::EMITUNENCRYPTEDLOG)
        } else if str_eq_ci(s, "sendl2tol1msg") {
            Some(Opcode::SENDL2TOL1MSG)
        } else if str_eq_ci(s, "call") {
            Some(Opcode::CALL)
        } else if str_eq_ci(s, "staticcall") {
            Some(Opcode::STATICCALL)
        } else if str_eq_ci(s, "delegatecall") {
            Some(Opcode::DELEGATECALL)
        } else if str_eq_ci(s, "return") {
            Some(Opcode::RETURN)
        } else if str_eq_ci(s, "revert") {
            Some(Opcode::REVERT)
        } else if str_eq_ci(s, "debuglog") {
            Some(Opcode::DEBUGLOG)
        } else if str_eq_ci(s, "keccak") {
            Some(Opcode::KECCAK)
        } else if str_eq_ci(s, "poseidon2") {
            Some(Opcode::POSEIDON2)
        } else if str_eq_ci(s, "sha256") {
            Some(Opcode::SHA256)
        } else if str_eq_ci(s, "pedersen") {
            Some(Opcode::PEDERSEN)
        } else if str_eq_ci(s, "ecadd") {
            Some(Opcode::ECADD)
        } else if str_eq_ci(s, "msm") {
            Some(Opcode::MSM)
        } else if str_eq_ci(s, "toradixle") {
            Some(Opcode::TORADIXLE)
        } else {
            None
        }
    }
}

} // verus!
