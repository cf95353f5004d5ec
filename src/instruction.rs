use vstd::prelude::*;

verus! {

/// An EVM instruction.
#[derive(Debug, PartialEq, Eq, Structural, Clone, Copy)]
pub enum Instruction {
    // Stop and arithmetic operations.
    Stop,
    Add,
    Mul,
    Sub,
    Div,
    SDiv,
    Mod,
    SMod,
    AddMod,
    MulMod,
    Exp,
    SignExtend,
    // Comparison and bitwise logic operations.
    Lt,
    Gt,
    SLt,
    SGt,
    Eq,
    IsZero,
    And,
    Or,
    Xor,
    Not,
    Byte,
    ShL,
    ShR,
    SAR,
    // Keccak 256.
    Keccak256,
    // Environmental information.
    Address,
    Balance,
    Origin,
    Caller,
    CallValue,
    CallDataLoad,
    CallDataSize,
    CallDataCopy,
    CodeSize,
    CodeCopy,
    GasPrice,
    ExtCodeSize,
    ExtCodeCopy,
    ReturnDataSize,
    ReturnDataCopy,
    ExtCodeHash,
    // Block information.
    BlockHash,
    Coinbase,
    Timestamp,
    Number,
    Difficulty,
    GasLimit,
    ChainId,
    SelfBalance,
    // Stack, memory, storage, and flow.
    Pop,
    MLoad,
    MStore,
    MStore8,
    SLoad,
    SStore,
    Jump,
    JumpI,
    Pc,
    MSize,
    Gas,
    JumpDest,
    // Push operations.
    Push1,
    Push2,
    Push3,
    Push4,
    Push5,
    Push6,
    Push7,
    Push8,
    Push9,
    Push10,
    Push11,
    Push12,
    Push13,
    Push14,
    Push15,
    Push16,
    Push17,
    Push18,
    Push19,
    Push20,
    Push21,
    Push22,
    Push23,
    Push24,
    Push25,
    Push26,
    Push27,
    Push28,
    Push29,
    Push30,
    Push31,
    Push32,
    // Duplication operations.
    Dup1,
    Dup2,
    Dup3,
    Dup4,
    Dup5,
    Dup6,
    Dup7,
    Dup8,
    Dup9,
    Dup10,
    Dup11,
    Dup12,
    Dup13,
    Dup14,
    Dup15,
    Dup16,
    // Exchange operations.
    Swap1,
    Swap2,
    Swap3,
    Swap4,
    Swap5,
    Swap6,
    Swap7,
    Swap8,
    Swap9,
    Swap10,
    Swap11,
    Swap12,
    Swap13,
    Swap14,
    Swap15,
    Swap16,
    // Logging operations.
    Log0,
    Log1,
    Log2,
    Log3,
    Log4,
    // System operations.
    Create,
    Call,
    CallCode,
    Return,
    DelegateCall,
    Create2,
    StaticCall,
    Revert,
    Invalid,
    SelfDestruct,
}

/// Whether `b` is the opcode of an instruction (0xfe is the designated invalid one).
pub open spec fn is_assigned(b: u8) -> bool {
    b <= 0x0b || (0x10 <= b <= 0x1d) || b == 0x20 || (0x30 <= b <= 0x47) || (0x50 <= b <= 0x5b)
        || (0x60 <= b <= 0xa4)
        || (0xf0 <= b <= 0xf5) || b == 0xfa || b == 0xfd || b == 0xfe || b == 0xff
}

/// The opcode byte of each instruction.
pub open spec fn opcode(i: Instruction) -> u8 {
    match i {
        Instruction::Stop => 0x00,
        Instruction::Add => 0x01,
        Instruction::Mul => 0x02,
        Instruction::Sub => 0x03,
        Instruction::Div => 0x04,
        Instruction::SDiv => 0x05,
        Instruction::Mod => 0x06,
        Instruction::SMod => 0x07,
        Instruction::AddMod => 0x08,
        Instruction::MulMod => 0x09,
        Instruction::Exp => 0x0a,
        Instruction::SignExtend => 0x0b,
        Instruction::Lt => 0x10,
        Instruction::SLt => 0x12,
        Instruction::Gt => 0x11,
        Instruction::SGt => 0x13,
        Instruction::Eq => 0x14,
        Instruction::IsZero => 0x15,
        Instruction::And => 0x16,
        Instruction::Or => 0x17,
        Instruction::Xor => 0x18,
        Instruction::Not => 0x19,
        Instruction::Byte => 0x1a,
        Instruction::ShL => 0x1b,
        Instruction::ShR => 0x1c,
        Instruction::SAR => 0x1d,
        Instruction::Keccak256 => 0x20,
        Instruction::Address => 0x30,
        Instruction::Balance => 0x31,
        Instruction::Origin => 0x32,
        Instruction::Caller => 0x33,
        Instruction::CallValue => 0x34,
        Instruction::CallDataLoad => 0x35,
        Instruction::CallDataSize => 0x36,
        Instruction::CallDataCopy => 0x37,
        Instruction::CodeSize => 0x38,
        Instruction::CodeCopy => 0x39,
        Instruction::GasPrice => 0x3a,
        Instruction::ExtCodeSize => 0x3b,
        Instruction::ExtCodeCopy => 0x3c,
        Instruction::ReturnDataSize => 0x3d,
        Instruction::ReturnDataCopy => 0x3e,
        Instruction::ExtCodeHash => 0x3f,
        Instruction::BlockHash => 0x40,
        Instruction::Coinbase => 0x41,
        Instruction::Timestamp => 0x42,
        Instruction::Number => 0x43,
        Instruction::Difficulty => 0x44,
        Instruction::GasLimit => 0x45,
        Instruction::ChainId => 0x46,
        Instruction::SelfBalance => 0x47,
        Instruction::Pop => 0x50,
        Instruction::MLoad => 0x51,
        Instruction::MStore => 0x52,
        Instruction::MStore8 => 0x53,
        Instruction::SLoad => 0x54,
        Instruction::SStore => 0x55,
        Instruction::Jump => 0x56,
        Instruction::JumpI => 0x57,
        Instruction::Pc => 0x58,
        Instruction::MSize => 0x59,
        Instruction::Gas => 0x5a,
        Instruction::JumpDest => 0x5b,
        Instruction::Push1 => 0x60,
        Instruction::Push2 => 0x61,
        Instruction::Push3 => 0x62,
        Instruction::Push4 => 0x63,
        Instruction::Push5 => 0x64,
        Instruction::Push6 => 0x65,
        Instruction::Push7 => 0x66,
        Instruction::Push8 => 0x67,
        Instruction::Push9 => 0x68,
        Instruction::Push10 => 0x69,
        Instruction::Push11 => 0x6a,
        Instruction::Push12 => 0x6b,
        Instruction::Push13 => 0x6c,
        Instruction::Push14 => 0x6d,
        Instruction::Push15 => 0x6e,
        Instruction::Push16 => 0x6f,
        Instruction::Push17 => 0x70,
        Instruction::Push18 => 0x71,
        Instruction::Push19 => 0x72,
        Instruction::Push20 => 0x73,
        Instruction::Push21 => 0x74,
        Instruction::Push22 => 0x75,
        Instruction::Push23 => 0x76,
        Instruction::Push24 => 0x77,
        Instruction::Push25 => 0x78,
        Instruction::Push26 => 0x79,
        Instruction::Push27 => 0x7a,
        Instruction::Push28 => 0x7b,
        Instruction::Push29 => 0x7c,
        Instruction::Push30 => 0x7d,
        Instruction::Push31 => 0x7e,
        Instruction::Push32 => 0x7f,
        Instruction::Dup1 => 0x80,
        Instruction::Dup2 => 0x81,
        Instruction::Dup3 => 0x82,
        Instruction::Dup4 => 0x83,
        Instruction::Dup5 => 0x84,
        Instruction::Dup6 => 0x85,
        Instruction::Dup7 => 0x86,
        Instruction::Dup8 => 0x87,
        Instruction::Dup9 => 0x88,
        Instruction::Dup10 => 0x89,
        Instruction::Dup11 => 0x8a,
        Instruction::Dup12 => 0x8b,
        Instruction::Dup13 => 0x8c,
        Instruction::Dup14 => 0x8d,
        Instruction::Dup15 => 0x8e,
        Instruction::Dup16 => 0x8f,
        Instruction::Swap1 => 0x90,
        Instruction::Swap2 => 0x91,
        Instruction::Swap3 => 0x92,
        Instruction::Swap4 => 0x93,
        Instruction::Swap5 => 0x94,
        Instruction::Swap6 => 0x95,
        Instruction::Swap7 => 0x96,
        Instruction::Swap8 => 0x97,
        Instruction::Swap9 => 0x98,
        Instruction::Swap10 => 0x99,
        Instruction::Swap11 => 0x9a,
        Instruction::Swap12 => 0x9b,
        Instruction::Swap13 => 0x9c,
        Instruction::Swap14 => 0x9d,
        Instruction::Swap15 => 0x9e,
        Instruction::Swap16 => 0x9f,
        Instruction::Log0 => 0xa0,
        Instruction::Log1 => 0xa1,
        Instruction::Log2 => 0xa2,
        Instruction::Log3 => 0xa3,
        Instruction::Log4 => 0xa4,
        Instruction::Create => 0xf0,
        Instruction::Call => 0xf1,
        Instruction::CallCode => 0xf2,
        Instruction::Return => 0xf3,
        Instruction::DelegateCall => 0xf4,
        Instruction::Create2 => 0xf5,
        Instruction::StaticCall => 0xfa,
        Instruction::Revert => 0xfd,
        Instruction::Invalid => 0xfe,
        Instruction::SelfDestruct => 0xff,
    }
}

/// Number of items an instruction takes off the stack, by opcode.
pub open spec fn stack_delta(op: u8) -> nat {
    if 0x60 <= op <= 0x7f {
        0
    } else if 0x80 <= op <= 0x8f {
        (op - 0x7f) as nat
    } else if 0x90 <= op <= 0x9f {
        (op - 0x8e) as nat
    } else if 0xa0 <= op <= 0xa4 {
        (op - 0x9e) as nat
    } else {
        match op {
            0x50 | 0x56 | 0xff => 1,
            0x15 | 0x19 | 0x31 | 0x35 | 0x3b | 0x3f | 0x40 | 0x51 | 0x54 => 1,
            0x52 | 0x53 | 0x55 | 0x57 | 0xf3 | 0xfd => 2,
            0x01 | 0x02 | 0x03 | 0x04 | 0x05 | 0x06 | 0x07 | 0x0a | 0x0b | 0x10 | 0x11 | 0x12 | 0x13
                | 0x14 | 0x16 | 0x17 | 0x18 | 0x1a | 0x1b | 0x1c | 0x1d | 0x20 => 2,
            0x37 | 0x39 | 0x3e => 3,
            0x08 | 0x09 | 0xf0 => 3,
            0x3c => 4,
            0xf5 => 4,
            0xf4 | 0xfa => 6,
            0xf1 | 0xf2 => 7,
            _ => 0,
        }
    }
}

/// Number of items an instruction puts on the stack, by opcode.
pub open spec fn stack_alpha(op: u8) -> nat {
    if 0x60 <= op <= 0x7f {
        1
    } else if 0x80 <= op <= 0x8f {
        (op - 0x7e) as nat
    } else if 0x90 <= op <= 0x9f {
        (op - 0x8e) as nat
    } else if 0xa0 <= op <= 0xa4 {
        0
    } else {
        match op {
            0x01 | 0x02 | 0x03 | 0x04 | 0x05 | 0x06 | 0x07 | 0x08 | 0x09 | 0x0a | 0x0b | 0x10
            | 0x11 | 0x12 | 0x13 | 0x14 | 0x15 | 0x16 | 0x17 | 0x18 | 0x19 | 0x1a | 0x1b | 0x1c
            | 0x1d | 0x20 | 0x30 | 0x31 | 0x32 | 0x33 | 0x34 | 0x35 | 0x36 | 0x38 | 0x3a | 0x3b
            | 0x3d | 0x3f | 0x40 | 0x41 | 0x42 | 0x43 | 0x44 | 0x45 | 0x46 | 0x47 | 0x51 | 0x54
            | 0x58 | 0x59 | 0x5a | 0xf0 | 0xf1 | 0xf2 | 0xf4 | 0xf5 | 0xfa => 1,
            _ => 0,
        }
    }
}

impl Instruction {
    /// Decodes an opcode byte; bytes that name no instruction decode to `Invalid`.
    pub fn from(value: u8) -> (r: Instruction)
        ensures
            is_assigned(value) ==> opcode(r) == value,
            !is_assigned(value) ==> r == Instruction::Invalid,
    {
        match value {
            0x00 => Instruction::Stop,
            0x01 => Instruction::Add,
            0x02 => Instruction::Mul,
            0x03 => Instruction::Sub,
            0x04 => Instruction::Div,
            0x05 => Instruction::SDiv,
            0x06 => Instruction::Mod,
            0x07 => Instruction::SMod,
            0x08 => Instruction::AddMod,
            0x09 => Instruction::MulMod,
            0x0a => Instruction::Exp,
            0x0b => Instruction::SignExtend,
            0x10 => Instruction::Lt,
            0x11 => Instruction::Gt,
            0x12 => Instruction::SLt,
            0x13 => Instruction::SGt,
            0x14 => Instruction::Eq,
            0x15 => Instruction::IsZero,
            0x16 => Instruction::And,
            0x17 => Instruction::Or,
            0x18 => Instruction::Xor,
            0x19 => Instruction::Not,
            0x1a => Instruction::Byte,
            0x1b => Instruction::ShL,
            0x1c => Instruction::ShR,
            0x1d => Instruction::SAR,
            0x20 => Instruction::Keccak256,
            0x30 => Instruction::Address,
            0x31 => Instruction::Balance,
            0x32 => Instruction::Origin,
            0x33 => Instruction::Caller,
            0x34 => Instruction::CallValue,
            0x35 => Instruction::CallDataLoad,
            0x36 => Instruction::CallDataSize,
            0x37 => Instruction::CallDataCopy,
            0x38 => Instruction::CodeSize,
            0x39 => Instruction::CodeCopy,
            0x3a => Instruction::GasPrice,
            0x3b => Instruction::ExtCodeSize,
            0x3c => Instruction::ExtCodeCopy,
            0x3d => Instruction::ReturnDataSize,
            0x3e => Instruction::ReturnDataCopy,
            0x3f => Instruction::ExtCodeHash,
            0x40 => Instruction::BlockHash,
            0x41 => Instruction::Coinbase,
            0x42 => Instruction::Timestamp,
            0x43 => Instruction::Number,
            0x44 => Instruction::Difficulty,
            0x45 => Instruction::GasLimit,
            0x46 => Instruction::ChainId,
            0x47 => Instruction::SelfBalance,
            0x50 => Instruction::Pop,
            0x51 => Instruction::MLoad,
            0x52 => Instruction::MStore,
            0x53 => Instruction::MStore8,
            0x54 => Instruction::SLoad,
            0x55 => Instruction::SStore,
            0x56 => Instruction::Jump,
            0x57 => Instruction::JumpI,
            0x58 => Instruction::Pc,
            0x59 => Instruction::MSize,
            0x5a => Instruction::Gas,
            0x5b => Instruction::JumpDest,
            0x60 => Instruction::Push1,
            0x61 => Instruction::Push2,
            0x62 => Instruction::Push3,
            0x63 => Instruction::Push4,
            0x64 => Instruction::Push5,
            0x65 => Instruction::Push6,
            0x66 => Instruction::Push7,
            0x67 => Instruction::Push8,
            0x68 => Instruction::Push9,
            0x69 => Instruction::Push10,
            0x6a => Instruction::Push11,
            0x6b => Instruction::Push12,
            0x6c => Instruction::Push13,
            0x6d => Instruction::Push14,
            0x6e => Instruction::Push15,
            0x6f => Instruction::Push16,
            0x70 => Instruction::Push17,
            0x71 => Instruction::Push18,
            0x72 => Instruction::Push19,
            0x73 => Instruction::Push20,
            0x74 => Instruction::Push21,
            0x75 => Instruction::Push22,
            0x76 => Instruction::Push23,
            0x77 => Instruction::Push24,
            0x78 => Instruction::Push25,
            0x79 => Instruction::Push26,
            0x7a => Instruction::Push27,
            0x7b => Instruction::Push28,
            0x7c => Instruction::Push29,
            0x7d => Instruction::Push30,
            0x7e => Instruction::Push31,
            0x7f => Instruction::Push32,
            0x80 => Instruction::Dup1,
            0x81 => Instruction::Dup2,
            0x82 => Instruction::Dup3,
            0x83 => Instruction::Dup4,
            0x84 => Instruction::Dup5,
            0x85 => Instruction::Dup6,
            0x86 => Instruction::Dup7,
            0x87 => Instruction::Dup8,
            0x88 => Instruction::Dup9,
            0x89 => Instruction::Dup10,
            0x8a => Instruction::Dup11,
            0x8b => Instruction::Dup12,
            0x8c => Instruction::Dup13,
            0x8d => Instruction::Dup14,
            0x8e => Instruction::Dup15,
            0x8f => Instruction::Dup16,
            0x90 => Instruction::Swap1,
            0x91 => Instruction::Swap2,
            0x92 => Instruction::Swap3,
            0x93 => Instruction::Swap4,
            0x94 => Instruction::Swap5,
            0x95 => Instruction::Swap6,
            0x96 => Instruction::Swap7,
            0x97 => Instruction::Swap8,
            0x98 => Instruction::Swap9,
            0x99 => Instruction::Swap10,
            0x9a => Instruction::Swap11,
            0x9b => Instruction::Swap12,
            0x9c => Instruction::Swap13,
            0x9d => Instruction::Swap14,
            0x9e => Instruction::Swap15,
            0x9f => Instruction::Swap16,
            0xa0 => Instruction::Log0,
            0xa1 => Instruction::Log1,
            0xa2 => Instruction::Log2,
            0xa3 => Instruction::Log3,
            0xa4 => Instruction::Log4,
            0xf0 => Instruction::Create,
            0xf1 => Instruction::Call,
            0xf2 => Instruction::CallCode,
            0xf3 => Instruction::Return,
            0xf4 => Instruction::DelegateCall,
            0xf5 => Instruction::Create2,
            0xfa => Instruction::StaticCall,
            0xfd => Instruction::Revert,
            0xfe => Instruction::Invalid,
            0xff => Instruction::SelfDestruct,
            _ => Instruction::Invalid,
        }
    }

    /// Returns a tuple containing the number of items removed from the stack (delta) and the
    /// number of items added to the stack (alpha) for the instruction.
    pub fn delta_alpha(&self) -> (r: (u8, u8))
        ensures
            r.0 == stack_delta(opcode(*self)),
            r.1 == stack_alpha(opcode(*self)),
    {
        match self {
            Instruction::Stop => (0, 0),
            Instruction::Add => (2, 1),
            Instruction::Mul => (2, 1),
            Instruction::Sub => (2, 1),
            Instruction::Div => (2, 1),
            Instruction::SDiv => (2, 1),
            Instruction::Mod => (2, 1),
            Instruction::SMod => (2, 1),
            Instruction::AddMod => (3, 1),
            Instruction::MulMod => (3, 1),
            Instruction::Exp => (2, 1),
            Instruction::SignExtend => (2, 1),
            Instruction::Lt => (2, 1),
            Instruction::Gt => (2, 1),
            Instruction::SLt => (2, 1),
            Instruction::SGt => (2, 1),
            Instruction::Eq => (2, 1),
            Instruction::IsZero => (1, 1),
            Instruction::And => (2, 1),
            Instruction::Or => (2, 1),
            Instruction::Xor => (2, 1),
            Instruction::Not => (1, 1),
            Instruction::Byte => (2, 1),
            Instruction::ShL => (2, 1),
            Instruction::ShR => (2, 1),
            Instruction::SAR => (2, 1),
            Instruction::Keccak256 => (2, 1),
            Instruction::Address => (0, 1),
            Instruction::Balance => (1, 1),
            Instruction::Origin => (0, 1),
            Instruction::Caller => (0, 1),
            Instruction::CallValue => (0, 1),
            Instruction::CallDataLoad => (1, 1),
            Instruction::CallDataSize => (0, 1),
            Instruction::CallDataCopy => (3, 0),
            Instruction::CodeSize => (0, 1),
            Instruction::CodeCopy => (3, 0),
            Instruction::GasPrice => (0, 1),
            Instruction::ExtCodeSize => (1, 1),
            Instruction::ExtCodeCopy => (4, 0),
            Instruction::ReturnDataSize => (0, 1),
            Instruction::ReturnDataCopy => (3, 0),
            Instruction::ExtCodeHash => (1, 1),
            Instruction::BlockHash => (1, 1),
            Instruction::Coinbase => (0, 1),
            Instruction::Timestamp => (0, 1),
            Instruction::Number => (0, 1),
            Instruction::Difficulty => (0, 1),
            Instruction::GasLimit => (0, 1),
            Instruction::ChainId => (0, 1),
            Instruction::SelfBalance => (0, 1),
            Instruction::Pop => (1, 0),
            Instruction::MLoad => (1, 1),
            Instruction::MStore => (2, 0),
            Instruction::MStore8 => (2, 0),
            Instruction::SLoad => (1, 1),
            Instruction::SStore => (2, 0),
            Instruction::Jump => (1, 0),
            Instruction::JumpI => (2, 0),
            Instruction::Pc => (0, 1),
            Instruction::MSize => (0, 1),
            Instruction::Gas => (0, 1),
            Instruction::JumpDest => (0, 0),
            Instruction::Push1 | Instruction::Push2 | Instruction::Push3
            | Instruction::Push4 | Instruction::Push5 | Instruction::Push6
            | Instruction::Push7 | Instruction::Push8 | Instruction::Push9
            | Instruction::Push10 | Instruction::Push11 | Instruction::Push12
            | Instruction::Push13 | Instruction::Push14 | Instruction::Push15
            | Instruction::Push16 | Instruction::Push17 | Instruction::Push18
            | Instruction::Push19 | Instruction::Push20 | Instruction::Push21
            | Instruction::Push22 | Instruction::Push23 | Instruction::Push24
            | Instruction::Push25 | Instruction::Push26 | Instruction::Push27
            | Instruction::Push28 | Instruction::Push29 | Instruction::Push30
            | Instruction::Push31 | Instruction::Push32 => (0, 1),
            Instruction::Dup1 => (1, 2),
            Instruction::Dup2 => (2, 3),
            Instruction::Dup3 => (3, 4),
            Instruction::Dup4 => (4, 5),
            Instruction::Dup5 => (5, 6),
            Instruction::Dup6 => (6, 7),
            Instruction::Dup7 => (7, 8),
            Instruction::Dup8 => (8, 9),
            Instruction::Dup9 => (9, 10),
            Instruction::Dup10 => (10, 11),
            Instruction::Dup11 => (11, 12),
            Instruction::Dup12 => (12, 13),
            Instruction::Dup13 => (13, 14),
            Instruction::Dup14 => (14, 15),
            Instruction::Dup15 => (15, 16),
            Instruction::Dup16 => (16, 17),
            Instruction::Swap1 => (2, 2),
            Instruction::Swap2 => (3, 3),
            Instruction::Swap3 => (4, 4),
            Instruction::Swap4 => (5, 5),
            Instruction::Swap5 => (6, 6),
            Instruction::Swap6 => (7, 7),
            Instruction::Swap7 => (8, 8),
            Instruction::Swap8 => (9, 9),
            Instruction::Swap9 => (10, 10),
            Instruction::Swap10 => (11, 11),
            Instruction::Swap11 => (12, 12),
            Instruction::Swap12 => (13, 13),
            Instruction::Swap13 => (14, 14),
            Instruction::Swap14 => (15, 15),
            Instruction::Swap15 => (16, 16),
            Instruction::Swap16 => (17, 17),
            Instruction::Log0 => (2, 0),
            Instruction::Log1 => (3, 0),
            Instruction::Log2 => (4, 0),
            Instruction::Log3 => (5, 0),
            Instruction::Log4 => (6, 0),
            Instruction::Create => (3, 1),
            Instruction::Call => (7, 1),
            Instruction::CallCode => (7, 1),
            Instruction::Return => (2, 0),
            Instruction::DelegateCall => (6, 1),
            Instruction::Create2 => (4, 1),
            Instruction::StaticCall => (6, 1),
            Instruction::Revert => (2, 0),
            Instruction::Invalid => (0, 0),
            Instruction::SelfDestruct => (1, 0),
        }
    }
    /// Number of immediate operand bytes that follow the opcode in the code: one to 32 for
    /// the push family, none for every other instruction.
    pub fn immediate_len(&self) -> (r: usize)
        ensures
            0x60 <= opcode(*self) <= 0x7f ==> r == opcode(*self) - 0x5f,
            !(0x60 <= opcode(*self) <= 0x7f) ==> r == 0,
    {
        match self {
            Instruction::Push1 => 1,
            Instruction::Push2 => 2,
            Instruction::Push3 => 3,
            Instruction::Push4 => 4,
            Instruction::Push5 => 5,
            Instruction::Push6 => 6,
            Instruction::Push7 => 7,
            Instruction::Push8 => 8,
            Instruction::Push9 => 9,
            Instruction::Push10 => 10,
            Instruction::Push11 => 11,
            Instruction::Push12 => 12,
            Instruction::Push13 => 13,
            Instruction::Push14 => 14,
            Instruction::Push15 => 15,
            Instruction::Push16 => 16,
            Instruction::Push17 => 17,
            Instruction::Push18 => 18,
            Instruction::Push19 => 19,
            Instruction::Push20 => 20,
            Instruction::Push21 => 21,
            Instruction::Push22 => 22,
            Instruction::Push23 => 23,
            Instruction::Push24 => 24,
            Instruction::Push25 => 25,
            Instruction::Push26 => 26,
            Instruction::Push27 => 27,
            Instruction::Push28 => 28,
            Instruction::Push29 => 29,
            Instruction::Push30 => 30,
            Instruction::Push31 => 31,
            Instruction::Push32 => 32,
            _ => 0,
        }
    }
}

} // verus!
