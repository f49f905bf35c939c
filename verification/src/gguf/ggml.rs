//! The tensor element types of ggml.

use vstd::prelude::*;
use crate::error::Error;

verus! {

/// A ggml tensor type. Each has a numeric id in GGUF files; see
/// `ggml_type_id`.
#[allow(non_camel_case_types)]
#[derive(Debug, Clone, Copy, PartialEq, Eq, Structural)]
pub enum GgmlType {
    F32,
    F16,
    Q4_0,
    Q4_1,
    Q5_0,
    Q5_1,
    Q8_0,
    Q8_1,
    Q2K,
    Q3K,
    Q4K,
    Q5K,
    Q6K,
    Q8K,
    Iq2Xxs,
    Iq2Xs,
    Iq3Xxs,
    Iq1S,
    Iq4Nl,
    Iq3S,
    Iq2S,
    Iq4Xs,
    I8,
    I16,
    I32,
    I64,
    F64,
    Iq1M,
    Bf16,
    Tq1_0,
    Tq2_0,
    Mxfp4,
    Count,
}

/// The numeric id of each ggml type.
pub open spec fn ggml_type_id(t: GgmlType) -> u32 {
    match t {
        GgmlType::F32 => 0,
        GgmlType::F16 => 1,
        GgmlType::Q4_0 => 2,
        GgmlType::Q4_1 => 3,
        GgmlType::Q5_0 => 6,
        GgmlType::Q5_1 => 7,
        GgmlType::Q8_0 => 8,
        GgmlType::Q8_1 => 9,
        GgmlType::Q2K => 10,
        GgmlType::Q3K => 11,
        GgmlType::Q4K => 12,
        GgmlType::Q5K => 13,
        GgmlType::Q6K => 14,
        GgmlType::Q8K => 15,
        GgmlType::Iq2Xxs => 16,
        GgmlType::Iq2Xs => 17,
        GgmlType::Iq3Xxs => 18,
        GgmlType::Iq1S => 19,
        GgmlType::Iq4Nl => 20,
        GgmlType::Iq3S => 21,
        GgmlType::Iq2S => 22,
        GgmlType::Iq4Xs => 23,
        GgmlType::I8 => 24,
        GgmlType::I16 => 25,
        GgmlType::I32 => 26,
        GgmlType::I64 => 27,
        GgmlType::F64 => 28,
        GgmlType::Iq1M => 29,
        GgmlType::Bf16 => 30,
        GgmlType::Tq1_0 => 34,
        GgmlType::Tq2_0 => 35,
        GgmlType::Mxfp4 => 39,
        GgmlType::Count => 40,
    }
}

/// The ggml type with numeric id `value`, if there is one.
pub open spec fn ggml_type_of(value: u32) -> Option<GgmlType> {
    if value == 0 {
        Some(GgmlType::F32)
    } else if value == 1 {
        Some(GgmlType::F16)
    } else if value == 2 {
        Some(GgmlType::Q4_0)
    } else if value == 3 {
        Some(GgmlType::Q4_1)
    } else if value == 6 {
        Some(GgmlType::Q5_0)
    } else if value == 7 {
        Some(GgmlType::Q5_1)
    } else if value == 8 {
        Some(GgmlType::Q8_0)
    } else if value == 9 {
        Some(GgmlType::Q8_1)
    } else if value == 10 {
        Some(GgmlType::Q2K)
    } else if value == 11 {
        Some(GgmlType::Q3K)
    } else if value == 12 {
        Some(GgmlType::Q4K)
    } else if value == 13 {
        Some(GgmlType::Q5K)
    } else if value == 14 {
        Some(GgmlType::Q6K)
    } else if value == 15 {
        Some(GgmlType::Q8K)
    } else if value == 16 {
        Some(GgmlType::Iq2Xxs)
    } else if value == 17 {
        Some(GgmlType::Iq2Xs)
    } else if value == 18 {
        Some(GgmlType::Iq3Xxs)
    } else if value == 19 {
        Some(GgmlType::Iq1S)
    } else if value == 20 {
        Some(GgmlType::Iq4Nl)
    } else if value == 21 {
        Some(GgmlType::Iq3S)
    } else if value == 22 {
        Some(GgmlType::Iq2S)
    } else if value == 23 {
        Some(GgmlType::Iq4Xs)
    } else if value == 24 {
        Some(GgmlType::I8)
    } else if value == 25 {
        Some(GgmlType::I16)
    } else if value == 26 {
        Some(GgmlType::I32)
    } else if value == 27 {
        Some(GgmlType::I64)
    } else if value == 28 {
        Some(GgmlType::F64)
    } else if value == 29 {
        Some(GgmlType::Iq1M)
    } else if value == 30 {
        Some(GgmlType::Bf16)
    } else if value == 34 {
        Some(GgmlType::Tq1_0)
    } else if value == 35 {
        Some(GgmlType::Tq2_0)
    } else if value == 39 {
        Some(GgmlType::Mxfp4)
    } else if value == 40 {
        Some(GgmlType::Count)
    } else {
        None
    }
}

/// Every ggml type is read back from its id, two types never share an id,
/// an id that is read names the type it is read as, and the ids that are
/// read are exactly 0 to 30 but 4 and 5, and 34, 35, 39 and 40.
pub proof fn law_ggml_type_ids(t: GgmlType, u: GgmlType, v: u32)
    ensures
        ggml_type_of(ggml_type_id(t)) == Some(t),
        ggml_type_id(t) == ggml_type_id(u) ==> t == u,
        ggml_type_of(v) matches Some(w) ==> ggml_type_id(w) == v,
        ggml_type_of(v) is Some <==> (v <= 30 && v != 4 && v != 5) || v == 34 || v == 35 || v
            == 39 || v == 40,
{
}

/// The type ids of GGUF files, as ggml numbers its types: 0 F32, 1 F16,
/// 2 and 3 Q4_0 and Q4_1, 6 to 9 Q5_0, Q5_1, Q8_0, Q8_1, 10 to 15 the K
/// quantizations Q2_K to Q8_K, 16 to 23 the IQ types, 24 to 27 I8 to I64,
/// 28 F64, 29 IQ1_M, 30 BF16, 34 and 35 TQ1_0 and TQ2_0, 39 MXFP4 and 40
/// the count.
pub proof fn law_ggml_type_id_table()
    ensures
        ggml_type_of(0) == Some(GgmlType::F32),
        ggml_type_of(1) == Some(GgmlType::F16),
        ggml_type_of(2) == Some(GgmlType::Q4_0),
        ggml_type_of(3) == Some(GgmlType::Q4_1),
        ggml_type_of(6) == Some(GgmlType::Q5_0),
        ggml_type_of(7) == Some(GgmlType::Q5_1),
        ggml_type_of(8) == Some(GgmlType::Q8_0),
        ggml_type_of(9) == Some(GgmlType::Q8_1),
        ggml_type_of(10) == Some(GgmlType::Q2K),
        ggml_type_of(11) == Some(GgmlType::Q3K),
        ggml_type_of(12) == Some(GgmlType::Q4K),
        ggml_type_of(13) == Some(GgmlType::Q5K),
        ggml_type_of(14) == Some(GgmlType::Q6K),
        ggml_type_of(15) == Some(GgmlType::Q8K),
        ggml_type_of(16) == Some(GgmlType::Iq2Xxs),
        ggml_type_of(17) == Some(GgmlType::Iq2Xs),
        ggml_type_of(18) == Some(GgmlType::Iq3Xxs),
        ggml_type_of(19) == Some(GgmlType::Iq1S),
        ggml_type_of(20) == Some(GgmlType::Iq4Nl),
        ggml_type_of(21) == Some(GgmlType::Iq3S),
        ggml_type_of(22) == Some(GgmlType::Iq2S),
        ggml_type_of(23) == Some(GgmlType::Iq4Xs),
        ggml_type_of(24) == Some(GgmlType::I8),
        ggml_type_of(25) == Some(GgmlType::I16),
        ggml_type_of(26) == Some(GgmlType::I32),
        ggml_type_of(27) == Some(GgmlType::I64),
        ggml_type_of(28) == Some(GgmlType::F64),
        ggml_type_of(29) == Some(GgmlType::Iq1M),
        ggml_type_of(30) == Some(GgmlType::Bf16),
        ggml_type_of(34) == Some(GgmlType::Tq1_0),
        ggml_type_of(35) == Some(GgmlType::Tq2_0),
        ggml_type_of(39) == Some(GgmlType::Mxfp4),
        ggml_type_of(40) == Some(GgmlType::Count),
{
}

/// Whether tensors of type `t` hold quantized data: every type except the
/// plain float and integer ones.
pub open spec fn is_quantized(t: GgmlType) -> bool {
    !(t == GgmlType::F32 || t == GgmlType::F16 || t == GgmlType::F64 || t == GgmlType::I8 || t
        == GgmlType::I16 || t == GgmlType::I32 || t == GgmlType::I64 || t == GgmlType::Bf16)
}

impl GgmlType {
    /// The ggml type with numeric id `value`; fails for unknown ids.
    pub fn try_from(value: u32) -> (res: Result<GgmlType, Error>)
        ensures
            match res {
                Ok(t) => ggml_type_of(value) == Some(t) && ggml_type_id(t) == value,
                Err(e) => ggml_type_of(value) is None && e == Error::UnsupportedGgmlType { value },
            },
    {
        match value {
            0 => Ok(GgmlType::F32),
            1 => Ok(GgmlType::F16),
            2 => Ok(GgmlType::Q4_0),
            3 => Ok(GgmlType::Q4_1),
            6 => Ok(GgmlType::Q5_0),
            7 => Ok(GgmlType::Q5_1),
            8 => Ok(GgmlType::Q8_0),
            9 => Ok(GgmlType::Q8_1),
            10 => Ok(GgmlType::Q2K),
            11 => Ok(GgmlType::Q3K),
            12 => Ok(GgmlType::Q4K),
            13 => Ok(GgmlType::Q5K),
            14 => Ok(GgmlType::Q6K),
            15 => Ok(GgmlType::Q8K),
            16 => Ok(GgmlType::Iq2Xxs),
            17 => Ok(GgmlType::Iq2Xs),
            18 => Ok(GgmlType::Iq3Xxs),
            19 => Ok(GgmlType::Iq1S),
            20 => Ok(GgmlType::Iq4Nl),
            21 => Ok(GgmlType::Iq3S),
            22 => Ok(GgmlType::Iq2S),
            23 => Ok(GgmlType::Iq4Xs),
            24 => Ok(GgmlType::I8),
            25 => Ok(GgmlType::I16),
            26 => Ok(GgmlType::I32),
            27 => Ok(GgmlType::I64),
            28 => Ok(GgmlType::F64),
            29 => Ok(GgmlType::Iq1M),
            30 => Ok(GgmlType::Bf16),
            34 => Ok(GgmlType::Tq1_0),
            35 => Ok(GgmlType::Tq2_0),
            39 => Ok(GgmlType::Mxfp4),
            40 => Ok(GgmlType::Count),
            _ => Err(Error::UnsupportedGgmlType { value }),
        }
    }

    /// Whether tensors of this type hold quantized data.
    pub(crate) fn is_quantized(&self) -> (res: bool)
        ensures
            res == is_quantized(*self),
    {
        match self {
            GgmlType::F32 | GgmlType::F16 | GgmlType::F64 | GgmlType::I8 | GgmlType::I16
            | GgmlType::I32 | GgmlType::I64 | GgmlType::Bf16 => false,
            _ => true,
        }
    }
}

} // verus!
