use vstd::prelude::*;
use std::collections::HashMap;
use crate::def_id::DefId;
use crate::text::same_text;

verus! {

broadcast use vstd::std_specs::hash::group_hash_axioms;

/// Well known definitions (language provided items) that are treated in special ways.
#[derive(Clone, Copy, Debug, Eq, PartialOrd, PartialEq, Hash, Ord, Structural)]
pub enum KnownNames {
    /// This is not a known name
    NotKnown,
    CheckerVerify,
    RustAlloc,
    RustAllocZeroed,
    RustDealloc,
    RustRealloc,
    StdMemSizeOf,
    StdMemForget,
    StdMemManuallyDropNew,
    StdPanickingBeginPanic,
    StdPanickingBeginPanicFmt,
    StdIntoVec,
    CoreOpsIndex,
    CoreOpsDeref,
    StdFrom,
    StdAsMutPtr,
    StdAsPtr,
    VecFromRawParts,
    StdPtrSwap,
    StdPtrSwapNonOverlapping,
    StdPtrReplace,
    StdPtrRead,
    StdPtrReadVolatile,
    StdPtrReadUnAligned,
    StdPtrWrite,
    StdPtrConstPtrRead,
    StdPtrMutPtrRead,
    StdPtrWriteBytes,
    StdPtrWriteVolatile,
    StdPtrWriteUnAligned,
    StdPtrDropInPlace,
    StdPtrConstPtrCast,
    StdPtrConstPtrAdd,
    StdPtrConstPtrSub,
    StdPtrConstPtrOffset,
    StdPtrConstPtrByteAdd,
    StdPtrConstPtrByteSub,
    StdPtrConstPtrByteOffset,
    StdPtrConstPtrWrappingAdd,
    StdPtrConstPtrWrappingSub,
    StdPtrConstPtrWrappingOffset,
    StdPtrConstPtrWrappingByteAdd,
    StdPtrConstPtrWrappingByteSub,
    StdPtrConstPtrWrappingByteOffset,
    StdPtrMutPtrCast,
    StdPtrMutPtrAdd,
    StdPtrMutPtrSub,
    StdPtrMutPtrOffset,
    StdPtrMutPtrByteAdd,
    StdPtrMutPtrByteSub,
    StdPtrMutPtrByteOffset,
    StdPtrMutPtrWrappingAdd,
    StdPtrMutPtrWrappingSub,
    StdPtrMutPtrWrappingOffset,
    StdPtrMutPtrWrappingByteAdd,
    StdPtrMutPtrWrappingByteSub,
    StdPtrMutPtrWrappingByteOffset,
    StdPtrConstPtrOffsetFrom,
    StdPtrMutPtrOffsetFrom,
    StdPtrConstPtrByteOffsetFrom,
    StdPtrMutPtrByteOffsetFrom,
    StdSliceIndexGetUnchecked,
    StdSliceIndexGetUncheckedMut,
    CoreStrConvertsFromUtf8Unchecked,
    StdIntrinsicsCopy,
    StdIntrinsicsCopyNonOverlapping,
    StdBoxIntoRaw,
    StdBoxLeak,
    /// `Box::from_raw`
    StdBoxFromRaw,
    /// std::mem::uninitialized (deprecated but still needs modeling)
    StdMemUninitialized,
    /// Vec::with_capacity
    VecWithCapacity,
    /// Vec::reserve
    VecReserve,
    /// Vec::set_len
    VecSetLen,
    /// mem::MaybeUninit::uninit
    StdMemMaybeUninitUninit,
    /// core::slice::from_raw_parts
    StdSliceFromRawParts,
}

/// One element of a definition path: a name in the type or value namespace,
/// or an element without such a name (an `impl` block, a closure, ...).
pub enum DefPathElem {
    Named(String),
    Other,
}

/// The name of element `i` of `path`, if it exists and has one.
pub open spec fn name_at(path: Seq<DefPathElem>, i: int) -> Option<Seq<char>> {
    if 0 <= i < path.len() {
        match path[i] {
            DefPathElem::Named(n) => Some(n@),
            DefPathElem::Other => None,
        }
    } else {
        None
    }
}

fn name_at_exec(path: &Vec<DefPathElem>, i: usize) -> (r: Option<&String>)
    ensures
        match r {
            Some(s) => name_at(path@, i as int) == Some(s@),
            None => name_at(path@, i as int).is_none(),
        },
{
    if i < path.len() {
        match &path[i] {
            DefPathElem::Named(n) => Some(n),
            DefPathElem::Other => None,
        }
    } else {
        None
    }
}

/// The known name that `n` stands for in the `alloc` namespace.
pub open spec fn alloc_names(n: Seq<char>) -> KnownNames {
    if n == "__rust_alloc"@ {
        KnownNames::RustAlloc
    } else if n == "__rust_alloc_zeroed"@ {
        KnownNames::RustAllocZeroed
    } else if n == "__rust_dealloc"@ {
        KnownNames::RustDealloc
    } else if n == "__rust_realloc"@ {
        KnownNames::RustRealloc
    } else {
        KnownNames::NotKnown
    }
}

fn alloc_names_exec(n: &String) -> (r: KnownNames)
    ensures
        r == alloc_names(n@),
{
    if same_text(n.as_str(), "__rust_alloc") {
        KnownNames::RustAlloc
    } else if same_text(n.as_str(), "__rust_alloc_zeroed") {
        KnownNames::RustAllocZeroed
    } else if same_text(n.as_str(), "__rust_dealloc") {
        KnownNames::RustDealloc
    } else if same_text(n.as_str(), "__rust_realloc") {
        KnownNames::RustRealloc
    } else {
        KnownNames::NotKnown
    }
}

/// The known name that `n` stands for in the `boxed` namespace.
pub open spec fn boxed_names(n: Seq<char>) -> KnownNames {
    if n == "into_raw"@ {
        KnownNames::StdBoxIntoRaw
    } else if n == "leak"@ {
        KnownNames::StdBoxLeak
    } else if n == "from_raw"@ {
        KnownNames::StdBoxFromRaw
    } else {
        KnownNames::NotKnown
    }
}

fn boxed_names_exec(n: &String) -> (r: KnownNames)
    ensures
        r == boxed_names(n@),
{
    if same_text(n.as_str(), "into_raw") {
        KnownNames::StdBoxIntoRaw
    } else if same_text(n.as_str(), "leak") {
        KnownNames::StdBoxLeak
    } else if same_text(n.as_str(), "from_raw") {
        KnownNames::StdBoxFromRaw
    } else {
        KnownNames::NotKnown
    }
}

/// The known name that `n` stands for in the `ops` namespace.
pub open spec fn ops_names(n: Seq<char>) -> KnownNames {
    if n == "index"@ {
        KnownNames::CoreOpsIndex
    } else if n == "index_mut"@ {
        KnownNames::CoreOpsIndex
    } else if n == "deref"@ {
        KnownNames::CoreOpsDeref
    } else {
        KnownNames::NotKnown
    }
}

fn ops_names_exec(n: &String) -> (r: KnownNames)
    ensures
        r == ops_names(n@),
{
    if same_text(n.as_str(), "index") {
        KnownNames::CoreOpsIndex
    } else if same_text(n.as_str(), "index_mut") {
        KnownNames::CoreOpsIndex
    } else if same_text(n.as_str(), "deref") {
        KnownNames::CoreOpsDeref
    } else {
        KnownNames::NotKnown
    }
}

/// The known name that `n` stands for in the `slice` namespace.
pub open spec fn slice_names(n: Seq<char>) -> KnownNames {
    if n == "into_vec"@ {
        KnownNames::StdIntoVec
    } else if n == "get_unchecked_mut"@ {
        KnownNames::StdSliceIndexGetUncheckedMut
    } else if n == "get_unchecked"@ {
        KnownNames::StdSliceIndexGetUnchecked
    } else if n == "from_raw_parts"@ {
        KnownNames::StdSliceFromRawParts
    } else {
        KnownNames::NotKnown
    }
}

fn slice_names_exec(n: &String) -> (r: KnownNames)
    ensures
        r == slice_names(n@),
{
    if same_text(n.as_str(), "into_vec") {
        KnownNames::StdIntoVec
    } else if same_text(n.as_str(), "get_unchecked_mut") {
        KnownNames::StdSliceIndexGetUncheckedMut
    } else if same_text(n.as_str(), "get_unchecked") {
        KnownNames::StdSliceIndexGetUnchecked
    } else if same_text(n.as_str(), "from_raw_parts") {
        KnownNames::StdSliceFromRawParts
    } else {
        KnownNames::NotKnown
    }
}

/// The known name that `n` stands for in the `panicking` namespace.
pub open spec fn panicking_names(n: Seq<char>) -> KnownNames {
    if n == "begin_panic"@ {
        KnownNames::StdPanickingBeginPanic
    } else if n == "panic"@ {
        KnownNames::StdPanickingBeginPanic
    } else if n == "begin_panic_fmt"@ {
        KnownNames::StdPanickingBeginPanicFmt
    } else if n == "panic_fmt"@ {
        KnownNames::StdPanickingBeginPanicFmt
    } else {
        KnownNames::NotKnown
    }
}

fn panicking_names_exec(n: &String) -> (r: KnownNames)
    ensures
        r == panicking_names(n@),
{
    if same_text(n.as_str(), "begin_panic") {
        KnownNames::StdPanickingBeginPanic
    } else if same_text(n.as_str(), "panic") {
        KnownNames::StdPanickingBeginPanic
    } else if same_text(n.as_str(), "begin_panic_fmt") {
        KnownNames::StdPanickingBeginPanicFmt
    } else if same_text(n.as_str(), "panic_fmt") {
        KnownNames::StdPanickingBeginPanicFmt
    } else {
        KnownNames::NotKnown
    }
}

/// The known name that `n` stands for in the `convert` namespace.
pub open spec fn convert_names(n: Seq<char>) -> KnownNames {
    if n == "from"@ {
        KnownNames::StdFrom
    } else {
        KnownNames::NotKnown
    }
}

fn convert_names_exec(n: &String) -> (r: KnownNames)
    ensures
        r == convert_names(n@),
{
    if same_text(n.as_str(), "from") {
        KnownNames::StdFrom
    } else {
        KnownNames::NotKnown
    }
}

/// The known name that `n` stands for in the `vec` namespace.
pub open spec fn vec_names(n: Seq<char>) -> KnownNames {
    if n == "from_raw_parts"@ {
        KnownNames::VecFromRawParts
    } else if n == "with_capacity"@ {
        KnownNames::VecWithCapacity
    } else if n == "reserve"@ {
        KnownNames::VecReserve
    } else if n == "set_len"@ {
        KnownNames::VecSetLen
    } else {
        KnownNames::NotKnown
    }
}

fn vec_names_exec(n: &String) -> (r: KnownNames)
    ensures
        r == vec_names(n@),
{
    if same_text(n.as_str(), "from_raw_parts") {
        KnownNames::VecFromRawParts
    } else if same_text(n.as_str(), "with_capacity") {
        KnownNames::VecWithCapacity
    } else if same_text(n.as_str(), "reserve") {
        KnownNames::VecReserve
    } else if same_text(n.as_str(), "set_len") {
        KnownNames::VecSetLen
    } else {
        KnownNames::NotKnown
    }
}

/// The known name that `n` stands for in the `mut_ptr` namespace.
pub open spec fn mut_ptr_names(n: Seq<char>) -> KnownNames {
    if n == "read"@ {
        KnownNames::StdPtrMutPtrRead
    } else if n == "offset_from"@ {
        KnownNames::StdPtrConstPtrOffsetFrom
    } else if n == "byte_offset_from"@ {
        KnownNames::StdPtrMutPtrByteOffsetFrom
    } else if n == "cast"@ {
        KnownNames::StdPtrMutPtrCast
    } else if n == "add"@ {
        KnownNames::StdPtrMutPtrAdd
    } else if n == "sub"@ {
        KnownNames::StdPtrMutPtrSub
    } else if n == "offset"@ {
        KnownNames::StdPtrMutPtrOffset
    } else if n == "byte_add"@ {
        KnownNames::StdPtrMutPtrByteAdd
    } else if n == "byte_sub"@ {
        KnownNames::StdPtrMutPtrByteSub
    } else if n == "byte_offset"@ {
        KnownNames::StdPtrMutPtrByteOffset
    } else if n == "wrapping_add"@ {
        KnownNames::StdPtrMutPtrWrappingAdd
    } else if n == "wrapping_sub"@ {
        KnownNames::StdPtrMutPtrWrappingSub
    } else if n == "wrapping_offset"@ {
        KnownNames::StdPtrMutPtrWrappingOffset
    } else if n == "wrapping_byte_add"@ {
        KnownNames::StdPtrMutPtrWrappingByteAdd
    } else if n == "wrapping_byte_sub"@ {
        KnownNames::StdPtrMutPtrWrappingByteSub
    } else if n == "wrapping_byte_offset"@ {
        KnownNames::StdPtrMutPtrWrappingByteOffset
    } else {
        KnownNames::NotKnown
    }
}

fn mut_ptr_names_exec(n: &String) -> (r: KnownNames)
    ensures
        r == mut_ptr_names(n@),
{
    if same_text(n.as_str(), "read") {
        KnownNames::StdPtrMutPtrRead
    } else if same_text(n.as_str(), "offset_from") {
        KnownNames::StdPtrConstPtrOffsetFrom
    } else if same_text(n.as_str(), "byte_offset_from") {
        KnownNames::StdPtrMutPtrByteOffsetFrom
    } else if same_text(n.as_str(), "cast") {
        KnownNames::StdPtrMutPtrCast
    } else if same_text(n.as_str(), "add") {
        KnownNames::StdPtrMutPtrAdd
    } else if same_text(n.as_str(), "sub") {
        KnownNames::StdPtrMutPtrSub
    } else if same_text(n.as_str(), "offset") {
        KnownNames::StdPtrMutPtrOffset
    } else if same_text(n.as_str(), "byte_add") {
        KnownNames::StdPtrMutPtrByteAdd
    } else if same_text(n.as_str(), "byte_sub") {
        KnownNames::StdPtrMutPtrByteSub
    } else if same_text(n.as_str(), "byte_offset") {
        KnownNames::StdPtrMutPtrByteOffset
    } else if same_text(n.as_str(), "wrapping_add") {
        KnownNames::StdPtrMutPtrWrappingAdd
    } else if same_text(n.as_str(), "wrapping_sub") {
        KnownNames::StdPtrMutPtrWrappingSub
    } else if same_text(n.as_str(), "wrapping_offset") {
        KnownNames::StdPtrMutPtrWrappingOffset
    } else if same_text(n.as_str(), "wrapping_byte_add") {
        KnownNames::StdPtrMutPtrWrappingByteAdd
    } else if same_text(n.as_str(), "wrapping_byte_sub") {
        KnownNames::StdPtrMutPtrWrappingByteSub
    } else if same_text(n.as_str(), "wrapping_byte_offset") {
        KnownNames::StdPtrMutPtrWrappingByteOffset
    } else {
        KnownNames::NotKnown
    }
}

/// The known name that `n` stands for in the `const_ptr` namespace.
pub open spec fn const_ptr_names(n: Seq<char>) -> KnownNames {
    if n == "read"@ {
        KnownNames::StdPtrConstPtrRead
    } else if n == "offset_from"@ {
        KnownNames::StdPtrConstPtrOffsetFrom
    } else if n == "byte_offset_from"@ {
        KnownNames::StdPtrMutPtrByteOffsetFrom
    } else if n == "cast"@ {
        KnownNames::StdPtrConstPtrCast
    } else if n == "add"@ {
        KnownNames::StdPtrConstPtrAdd
    } else if n == "sub"@ {
        KnownNames::StdPtrConstPtrSub
    } else if n == "offset"@ {
        KnownNames::StdPtrConstPtrOffset
    } else if n == "byte_add"@ {
        KnownNames::StdPtrConstPtrByteAdd
    } else if n == "byte_sub"@ {
        KnownNames::StdPtrConstPtrByteSub
    } else if n == "byte_offset"@ {
        KnownNames::StdPtrConstPtrByteOffset
    } else if n == "wrapping_add"@ {
        KnownNames::StdPtrConstPtrWrappingAdd
    } else if n == "wrapping_sub"@ {
        KnownNames::StdPtrConstPtrWrappingSub
    } else if n == "wrapping_offset"@ {
        KnownNames::StdPtrConstPtrWrappingOffset
    } else if n == "wrapping_byte_add"@ {
        KnownNames::StdPtrConstPtrWrappingByteAdd
    } else if n == "wrapping_byte_sub"@ {
        KnownNames::StdPtrConstPtrWrappingByteSub
    } else if n == "wrapping_byte_offset"@ {
        KnownNames::StdPtrConstPtrWrappingByteOffset
    } else {
        KnownNames::NotKnown
    }
}

fn const_ptr_names_exec(n: &String) -> (r: KnownNames)
    ensures
        r == const_ptr_names(n@),
{
    if same_text(n.as_str(), "read") {
        KnownNames::StdPtrConstPtrRead
    } else if same_text(n.as_str(), "offset_from") {
        KnownNames::StdPtrConstPtrOffsetFrom
    } else if same_text(n.as_str(), "byte_offset_from") {
        KnownNames::StdPtrMutPtrByteOffsetFrom
    } else if same_text(n.as_str(), "cast") {
        KnownNames::StdPtrConstPtrCast
    } else if same_text(n.as_str(), "add") {
        KnownNames::StdPtrConstPtrAdd
    } else if same_text(n.as_str(), "sub") {
        KnownNames::StdPtrConstPtrSub
    } else if same_text(n.as_str(), "offset") {
        KnownNames::StdPtrConstPtrOffset
    } else if same_text(n.as_str(), "byte_add") {
        KnownNames::StdPtrConstPtrByteAdd
    } else if same_text(n.as_str(), "byte_sub") {
        KnownNames::StdPtrConstPtrByteSub
    } else if same_text(n.as_str(), "byte_offset") {
        KnownNames::StdPtrConstPtrByteOffset
    } else if same_text(n.as_str(), "wrapping_add") {
        KnownNames::StdPtrConstPtrWrappingAdd
    } else if same_text(n.as_str(), "wrapping_sub") {
        KnownNames::StdPtrConstPtrWrappingSub
    } else if same_text(n.as_str(), "wrapping_offset") {
        KnownNames::StdPtrConstPtrWrappingOffset
    } else if same_text(n.as_str(), "wrapping_byte_add") {
        KnownNames::StdPtrConstPtrWrappingByteAdd
    } else if same_text(n.as_str(), "wrapping_byte_sub") {
        KnownNames::StdPtrConstPtrWrappingByteSub
    } else if same_text(n.as_str(), "wrapping_byte_offset") {
        KnownNames::StdPtrConstPtrWrappingByteOffset
    } else {
        KnownNames::NotKnown
    }
}

/// The known name that `n` stands for in the `ptr` namespace.
pub open spec fn ptr_names(n: Seq<char>) -> KnownNames {
    if n == "read"@ {
        KnownNames::StdPtrRead
    } else if n == "read_unaligned"@ {
        KnownNames::StdPtrReadUnAligned
    } else if n == "read_volatile"@ {
        KnownNames::StdPtrReadVolatile
    } else if n == "drop_in_place"@ {
        KnownNames::StdPtrDropInPlace
    } else if n == "replace"@ {
        KnownNames::StdPtrReplace
    } else if n == "write"@ {
        KnownNames::StdPtrWrite
    } else if n == "write_bytes"@ {
        KnownNames::StdPtrWriteBytes
    } else if n == "write_unaligned"@ {
        KnownNames::StdPtrWriteUnAligned
    } else if n == "write_volatile"@ {
        KnownNames::StdPtrWriteVolatile
    } else if n == "swap"@ {
        KnownNames::StdPtrSwap
    } else if n == "swap_nonoverlapping"@ {
        KnownNames::StdPtrSwapNonOverlapping
    } else {
        KnownNames::NotKnown
    }
}

fn ptr_names_exec(n: &String) -> (r: KnownNames)
    ensures
        r == ptr_names(n@),
{
    if same_text(n.as_str(), "read") {
        KnownNames::StdPtrRead
    } else if same_text(n.as_str(), "read_unaligned") {
        KnownNames::StdPtrReadUnAligned
    } else if same_text(n.as_str(), "read_volatile") {
        KnownNames::StdPtrReadVolatile
    } else if same_text(n.as_str(), "drop_in_place") {
        KnownNames::StdPtrDropInPlace
    } else if same_text(n.as_str(), "replace") {
        KnownNames::StdPtrReplace
    } else if same_text(n.as_str(), "write") {
        KnownNames::StdPtrWrite
    } else if same_text(n.as_str(), "write_bytes") {
        KnownNames::StdPtrWriteBytes
    } else if same_text(n.as_str(), "write_unaligned") {
        KnownNames::StdPtrWriteUnAligned
    } else if same_text(n.as_str(), "write_volatile") {
        KnownNames::StdPtrWriteVolatile
    } else if same_text(n.as_str(), "swap") {
        KnownNames::StdPtrSwap
    } else if same_text(n.as_str(), "swap_nonoverlapping") {
        KnownNames::StdPtrSwapNonOverlapping
    } else {
        KnownNames::NotKnown
    }
}

/// The known name that `n` stands for in the `intrinsics` namespace.
pub open spec fn intrinsics_names(n: Seq<char>) -> KnownNames {
    if n == "copy"@ {
        KnownNames::StdIntrinsicsCopy
    } else if n == "copy_nonoverlapping"@ {
        KnownNames::StdIntrinsicsCopyNonOverlapping
    } else {
        KnownNames::NotKnown
    }
}

fn intrinsics_names_exec(n: &String) -> (r: KnownNames)
    ensures
        r == intrinsics_names(n@),
{
    if same_text(n.as_str(), "copy") {
        KnownNames::StdIntrinsicsCopy
    } else if same_text(n.as_str(), "copy_nonoverlapping") {
        KnownNames::StdIntrinsicsCopyNonOverlapping
    } else {
        KnownNames::NotKnown
    }
}

/// The known name that `n` stands for in the `mem` namespace.
pub open spec fn mem_names(n: Seq<char>) -> KnownNames {
    if n == "size_of"@ {
        KnownNames::StdMemSizeOf
    } else if n == "forget"@ {
        KnownNames::StdMemForget
    } else if n == "uninitialized"@ {
        KnownNames::StdMemUninitialized
    } else {
        KnownNames::NotKnown
    }
}

fn mem_names_exec(n: &String) -> (r: KnownNames)
    ensures
        r == mem_names(n@),
{
    if same_text(n.as_str(), "size_of") {
        KnownNames::StdMemSizeOf
    } else if same_text(n.as_str(), "forget") {
        KnownNames::StdMemForget
    } else if same_text(n.as_str(), "uninitialized") {
        KnownNames::StdMemUninitialized
    } else {
        KnownNames::NotKnown
    }
}
/// Looks a name up in a namespace table, or gives `None` when there is no name.
pub open spec fn lookup(n: Option<Seq<char>>, table: spec_fn(Seq<char>) -> KnownNames) -> KnownNames {
    match n {
        Some(m) => table(m),
        None => KnownNames::NotKnown,
    }
}

/// `alloc::{{extern}}::__rust_alloc` and its siblings.
pub open spec fn alloc_namespace(path: Seq<DefPathElem>) -> KnownNames {
    match name_at(path, 1) {
        Some(n) => if n == ""@ {
            lookup(name_at(path, 2), |m: Seq<char>| alloc_names(m))
        } else {
            KnownNames::NotKnown
        },
        None => KnownNames::NotKnown,
    }
}

/// `mem::size_of`, `mem::manually_drop::ManuallyDrop::new`, `mem::MaybeUninit::uninit`, ...
pub open spec fn mem_namespace(path: Seq<DefPathElem>) -> KnownNames {
    match name_at(path, 1) {
        Some(n) => if n == "manually_drop"@ {
            match name_at(path, 3) {
                Some(m) => if m == "new"@ {
                    KnownNames::StdMemManuallyDropNew
                } else {
                    KnownNames::NotKnown
                },
                None => KnownNames::NotKnown,
            }
        } else if n == "MaybeUninit"@ {
            match name_at(path, 2) {
                Some(m) => if m == "uninit"@ {
                    KnownNames::StdMemMaybeUninitUninit
                } else {
                    KnownNames::NotKnown
                },
                None => KnownNames::NotKnown,
            }
        } else {
            mem_names(n)
        },
        None => KnownNames::NotKnown,
    }
}

/// `boxed::Box::leak` and its siblings (the second element may also be an `impl` block).
pub open spec fn boxed_namespace(path: Seq<DefPathElem>) -> KnownNames {
    match name_at(path, 1) {
        Some(n) if n != "Box"@ => KnownNames::NotKnown,
        _ => lookup(name_at(path, 2), |m: Seq<char>| boxed_names(m)),
    }
}

/// `ptr::read`, `ptr::mut_ptr::<impl>::add`, `ptr::const_ptr::<impl>::offset`, ...
pub open spec fn ptr_namespace(path: Seq<DefPathElem>) -> KnownNames {
    match name_at(path, 1) {
        Some(n) => if n == "mut_ptr"@ {
            lookup(name_at(path, 3), |m: Seq<char>| mut_ptr_names(m))
        } else if n == "const_ptr"@ {
            lookup(name_at(path, 3), |m: Seq<char>| const_ptr_names(m))
        } else {
            ptr_names(n)
        },
        None => KnownNames::NotKnown,
    }
}

/// `str::converts::from_utf8_unchecked`.
pub open spec fn str_namespace(path: Seq<DefPathElem>) -> KnownNames {
    match name_at(path, 1) {
        Some(n) => if n == "converts"@ {
            match name_at(path, 2) {
                Some(m) => if m == "from_utf8_unchecked"@ {
                    KnownNames::CoreStrConvertsFromUtf8Unchecked
                } else {
                    KnownNames::NotKnown
                },
                None => KnownNames::NotKnown,
            }
        } else {
            KnownNames::NotKnown
        },
        None => KnownNames::NotKnown,
    }
}

/// The known name of a path in one of the crates whose functions are
/// recognized, by its first element.
pub open spec fn known_crate_name(path: Seq<DefPathElem>) -> KnownNames {
    match name_at(path, 0) {
        Some(n) => if n == "alloc"@ {
            alloc_namespace(path)
        } else if n == "mem"@ {
            mem_namespace(path)
        } else if n == "boxed"@ {
            boxed_namespace(path)
        } else if n == "ops"@ {
            lookup(name_at(path, 1), |m: Seq<char>| ops_names(m))
        } else if n == "slice"@ {
            lookup(name_at(path, 2), |m: Seq<char>| slice_names(m))
        } else if n == "panicking"@ {
            lookup(name_at(path, 1), |m: Seq<char>| panicking_names(m))
        } else if n == "convert"@ {
            lookup(name_at(path, 2), |m: Seq<char>| convert_names(m))
        } else if n == "vec"@ {
            lookup(name_at(path, 2), |m: Seq<char>| vec_names(m))
        } else if n == "ptr"@ {
            ptr_namespace(path)
        } else if n == "str"@ {
            str_namespace(path)
        } else if n == "mir_checker_verify"@ {
            KnownNames::CheckerVerify
        } else if n == "intrinsics"@ {
            lookup(name_at(path, 1), |m: Seq<char>| intrinsics_names(m))
        } else {
            KnownNames::NotKnown
        },
        None => KnownNames::NotKnown,
    }
}

/// The crates whose functions are recognized.
pub open spec fn is_known_crate(crate_name: Seq<char>) -> bool {
    crate_name == "alloc"@ || crate_name == "core"@ || crate_name == "macros"@ || crate_name == "std"@
}

/// The well known name of the definition at `path` in crate `crate_name`:
/// any `as_ptr` or `as_mut_ptr` by its last element, otherwise by the path,
/// in the recognized crates only.
pub open spec fn known_name_for(crate_name: Seq<char>, path: Seq<DefPathElem>) -> KnownNames {
    match name_at(path, path.len() - 1) {
        Some(n) if n == "as_ptr"@ => KnownNames::StdAsPtr,
        Some(n) if n == "as_mut_ptr"@ => KnownNames::StdAsMutPtr,
        _ => if is_known_crate(crate_name) {
            known_crate_name(path)
        } else {
            KnownNames::NotKnown
        },
    }
}

fn alloc_namespace_exec(path: &Vec<DefPathElem>) -> (r: KnownNames)
    ensures
        r == alloc_namespace(path@),
{
    match name_at_exec(path, 1) {
        Some(n) => if same_text(n.as_str(), "") {
            match name_at_exec(path, 2) {
                Some(m) => alloc_names_exec(m),
                None => KnownNames::NotKnown,
            }
        } else {
            KnownNames::NotKnown
        },
        None => KnownNames::NotKnown,
    }
}

fn mem_namespace_exec(path: &Vec<DefPathElem>) -> (r: KnownNames)
    ensures
        r == mem_namespace(path@),
{
    match name_at_exec(path, 1) {
        Some(n) => if same_text(n.as_str(), "manually_drop") {
            match name_at_exec(path, 3) {
                Some(m) => if same_text(m.as_str(), "new") {
                    KnownNames::StdMemManuallyDropNew
                } else {
                    KnownNames::NotKnown
                },
                None => KnownNames::NotKnown,
            }
        } else if same_text(n.as_str(), "MaybeUninit") {
            match name_at_exec(path, 2) {
                Some(m) => if same_text(m.as_str(), "uninit") {
                    KnownNames::StdMemMaybeUninitUninit
                } else {
                    KnownNames::NotKnown
                },
                None => KnownNames::NotKnown,
            }
        } else {
            mem_names_exec(n)
        },
        None => KnownNames::NotKnown,
    }
}

fn boxed_namespace_exec(path: &Vec<DefPathElem>) -> (r: KnownNames)
    ensures
        r == boxed_namespace(path@),
{
    match name_at_exec(path, 1) {
        Some(n) => if !same_text(n.as_str(), "Box") {
            return KnownNames::NotKnown;
        },
        None => {},
    }
    match name_at_exec(path, 2) {
        Some(m) => boxed_names_exec(m),
        None => KnownNames::NotKnown,
    }
}

fn ptr_namespace_exec(path: &Vec<DefPathElem>) -> (r: KnownNames)
    ensures
        r == ptr_namespace(path@),
{
    match name_at_exec(path, 1) {
        Some(n) => if same_text(n.as_str(), "mut_ptr") {
            match name_at_exec(path, 3) {
                Some(m) => mut_ptr_names_exec(m),
                None => KnownNames::NotKnown,
            }
        } else if same_text(n.as_str(), "const_ptr") {
            match name_at_exec(path, 3) {
                Some(m) => const_ptr_names_exec(m),
                None => KnownNames::NotKnown,
            }
        } else {
            ptr_names_exec(n)
        },
        None => KnownNames::NotKnown,
    }
}

fn str_namespace_exec(path: &Vec<DefPathElem>) -> (r: KnownNames)
    ensures
        r == str_namespace(path@),
{
    match name_at_exec(path, 1) {
        Some(n) => if same_text(n.as_str(), "converts") {
            match name_at_exec(path, 2) {
                Some(m) => if same_text(m.as_str(), "from_utf8_unchecked") {
                    KnownNames::CoreStrConvertsFromUtf8Unchecked
                } else {
                    KnownNames::NotKnown
                },
                None => KnownNames::NotKnown,
            }
        } else {
            KnownNames::NotKnown
        },
        None => KnownNames::NotKnown,
    }
}

fn known_crate_name_exec(path: &Vec<DefPathElem>) -> (r: KnownNames)
    ensures
        r == known_crate_name(path@),
{
    match name_at_exec(path, 0) {
        Some(n) => {
            let n = n.as_str();
            if same_text(n, "alloc") {
                alloc_namespace_exec(path)
            } else if same_text(n, "mem") {
                mem_namespace_exec(path)
            } else if same_text(n, "boxed") {
                boxed_namespace_exec(path)
            } else if same_text(n, "ops") {
                match name_at_exec(path, 1) {
                    Some(m) => ops_names_exec(m),
                    None => KnownNames::NotKnown,
                }
            } else if same_text(n, "slice") {
                match name_at_exec(path, 2) {
                    Some(m) => slice_names_exec(m),
                    None => KnownNames::NotKnown,
                }
            } else if same_text(n, "panicking") {
                match name_at_exec(path, 1) {
                    Some(m) => panicking_names_exec(m),
                    None => KnownNames::NotKnown,
                }
            } else if same_text(n, "convert") {
                match name_at_exec(path, 2) {
                    Some(m) => convert_names_exec(m),
                    None => KnownNames::NotKnown,
                }
            } else if same_text(n, "vec") {
                match name_at_exec(path, 2) {
                    Some(m) => vec_names_exec(m),
                    None => KnownNames::NotKnown,
                }
            } else if same_text(n, "ptr") {
                ptr_namespace_exec(path)
            } else if same_text(n, "str") {
                str_namespace_exec(path)
            } else if same_text(n, "mir_checker_verify") {
                KnownNames::CheckerVerify
            } else if same_text(n, "intrinsics") {
                match name_at_exec(path, 1) {
                    Some(m) => intrinsics_names_exec(m),
                    None => KnownNames::NotKnown,
                }
            } else {
                KnownNames::NotKnown
            }
        },
        None => KnownNames::NotKnown,
    }
}

/// An analysis lifetime cache that contains a map from def ids to known names.
pub struct KnownNamesCache {
    name_cache: HashMap<u64, KnownNames>,
}

impl KnownNamesCache {
    /// The cached known names, by definition key.
    pub closed spec fn cached(&self) -> Map<u64, KnownNames> {
        self.name_cache@
    }

    /// Create an empty known names cache.
    /// This cache is re-used by every successive MIR visitor instance.
    pub fn create_cache_from_language_items() -> (c: KnownNamesCache)
        ensures
            c.cached() == Map::<u64, KnownNames>::empty(),
    {
        KnownNamesCache { name_cache: HashMap::new() }
    }

    /// Get the well known name for the given def id and cache the association.
    /// I.e. the first call for an unknown def id works the name out from the
    /// crate name and definition path of `def_id`, and later calls give the
    /// cached name. If the def_id does not have an actual well known name,
    /// this returns KnownNames::NotKnown.
    pub fn get(&mut self, def_id: DefId, crate_name: &str, def_path: &Vec<DefPathElem>) -> (r: KnownNames)
        ensures
            old(self).cached().contains_key(def_id.key_spec()) ==> r == old(self).cached()[def_id.key_spec()]
                && final(self).cached() == old(self).cached(),
            !old(self).cached().contains_key(def_id.key_spec()) ==> r == known_name_for(crate_name@, def_path@)
                && final(self).cached() == old(self).cached().insert(def_id.key_spec(), r),
    {
        let key = def_id.key();
        match self.name_cache.get(&key) {
            Some(name) => *name,
            None => {
                let name = Self::get_known_name_for(crate_name, def_path);
                self.name_cache.insert(key, name);
                name
            },
        }
    }

    /// Works out which well known name (if any) the definition at `def_path`
    /// in crate `crate_name` corresponds to.
    pub fn get_known_name_for(crate_name: &str, def_path: &Vec<DefPathElem>) -> (r: KnownNames)
        ensures
            r == known_name_for(crate_name@, def_path@),
    {
        let len = def_path.len();
        if len > 0 {
            match name_at_exec(def_path, len - 1) {
                Some(n) => {
                    if same_text(n.as_str(), "as_ptr") {
                        return KnownNames::StdAsPtr;
                    } else if same_text(n.as_str(), "as_mut_ptr") {
                        return KnownNames::StdAsMutPtr;
                    }
                },
                None => {},
            }
        }
        if same_text(crate_name, "alloc") || same_text(crate_name, "core") || same_text(crate_name, "macros")
            || same_text(crate_name, "std") {
            known_crate_name_exec(def_path)
        } else {
            KnownNames::NotKnown
        }
    }
}


/// Once `get` has answered for a definition, the cache holds that answer, so
/// every later `get` for the definition gives the same one.
pub proof fn law_cached_name_is_kept(
    before: KnownNamesCache,
    after: KnownNamesCache,
    def_id: DefId,
    crate_name: Seq<char>,
    def_path: Seq<DefPathElem>,
    r: KnownNames,
)
    requires
        before.cached().contains_key(def_id.key_spec()) ==> r == before.cached()[def_id.key_spec()]
            && after.cached() == before.cached(),
        !before.cached().contains_key(def_id.key_spec()) ==> r == known_name_for(crate_name, def_path)
            && after.cached() == before.cached().insert(def_id.key_spec(), r),
    ensures
        after.cached().contains_key(def_id.key_spec()),
        after.cached()[def_id.key_spec()] == r,
{
}


/// For a standard crate and a path whose last element is neither `as_ptr`
/// nor `as_mut_ptr`, the known name is decided by the path within the crate.
proof fn lemma_standard_crate(crate_name: Seq<char>, path: Seq<DefPathElem>, last: Seq<char>)
    requires
        crate_name == "alloc"@ || crate_name == "core"@ || crate_name == "std"@,
        path.len() > 0,
        name_at(path, path.len() - 1) == Some(last),
        last != "as_ptr"@,
        last != "as_mut_ptr"@,
    ensures
        known_name_for(crate_name, path) == known_crate_name(path),
{
}

/// The functions of `Box` that change who owns a resource are recognized in
/// the standard crates, whether the middle element of the path is `Box` or an
/// `impl` block: `boxed::Box::leak`, `boxed::Box::into_raw` and
/// `boxed::Box::from_raw`.
pub proof fn law_box_functions_known(crate_name: Seq<char>, path: Seq<DefPathElem>)
    requires
        crate_name == "alloc"@ || crate_name == "core"@ || crate_name == "std"@,
        path.len() == 3,
        name_at(path, 0) == Some("boxed"@),
        name_at(path, 1) is None || name_at(path, 1) == Some("Box"@),
    ensures
        name_at(path, 2) == Some("leak"@) ==> known_name_for(crate_name, path) == KnownNames::StdBoxLeak,
        name_at(path, 2) == Some("into_raw"@) ==> known_name_for(crate_name, path) == KnownNames::StdBoxIntoRaw,
        name_at(path, 2) == Some("from_raw"@) ==> known_name_for(crate_name, path) == KnownNames::StdBoxFromRaw,
{
    reveal_strlit("as_ptr");
    reveal_strlit("as_mut_ptr");
    reveal_strlit("alloc");
    reveal_strlit("mem");
    reveal_strlit("boxed");
    reveal_strlit("Box");
    reveal_strlit("leak");
    reveal_strlit("into_raw");
    reveal_strlit("from_raw");
    assert("boxed"@ != "alloc"@) by {
        assert("boxed"@[0] != "alloc"@[0]);
    }
    assert("boxed"@ != "mem"@) by {
        assert("boxed"@.len() != "mem"@.len());
    }
    assert("leak"@ != "into_raw"@) by {
        assert("leak"@.len() != "into_raw"@.len());
    }
    assert("from_raw"@ != "into_raw"@) by {
        assert("from_raw"@[0] != "into_raw"@[0]);
    }
    assert("from_raw"@ != "leak"@) by {
        assert("from_raw"@.len() != "leak"@.len());
    }
    assert("leak"@ != "as_ptr"@) by {
        assert("leak"@.len() != "as_ptr"@.len());
    }
    assert("leak"@ != "as_mut_ptr"@) by {
        assert("leak"@.len() != "as_mut_ptr"@.len());
    }
    assert("into_raw"@ != "as_ptr"@) by {
        assert("into_raw"@.len() != "as_ptr"@.len());
    }
    assert("into_raw"@ != "as_mut_ptr"@) by {
        assert("into_raw"@.len() != "as_mut_ptr"@.len());
    }
    assert("from_raw"@ != "as_ptr"@) by {
        assert("from_raw"@.len() != "as_ptr"@.len());
    }
    assert("from_raw"@ != "as_mut_ptr"@) by {
        assert("from_raw"@.len() != "as_mut_ptr"@.len());
    }
    assert(known_crate_name(path) == boxed_namespace(path));
    if name_at(path, 2) == Some("leak"@) {
        lemma_standard_crate(crate_name, path, "leak"@);
    }
    if name_at(path, 2) == Some("into_raw"@) {
        lemma_standard_crate(crate_name, path, "into_raw"@);
    }
    if name_at(path, 2) == Some("from_raw"@) {
        lemma_standard_crate(crate_name, path, "from_raw"@);
    }
}

/// The `mem` functions that the ownership analysis models are recognized in
/// the standard crates: `mem::forget`, `mem::uninitialized`, `mem::size_of`,
/// `mem::manually_drop::ManuallyDrop::new` and `mem::MaybeUninit::uninit`.
pub proof fn law_mem_functions_known(crate_name: Seq<char>, path: Seq<DefPathElem>)
    requires
        crate_name == "alloc"@ || crate_name == "core"@ || crate_name == "std"@,
        name_at(path, 0) == Some("mem"@),
    ensures
        path.len() == 2 && name_at(path, 1) == Some("forget"@) ==> known_name_for(crate_name, path)
            == KnownNames::StdMemForget,
        path.len() == 2 && name_at(path, 1) == Some("uninitialized"@) ==> known_name_for(crate_name, path)
            == KnownNames::StdMemUninitialized,
        path.len() == 2 && name_at(path, 1) == Some("size_of"@) ==> known_name_for(crate_name, path)
            == KnownNames::StdMemSizeOf,
        path.len() == 4 && name_at(path, 1) == Some("manually_drop"@) && name_at(path, 3) == Some("new"@)
            ==> known_name_for(crate_name, path) == KnownNames::StdMemManuallyDropNew,
        path.len() == 3 && name_at(path, 1) == Some("MaybeUninit"@) && name_at(path, 2) == Some("uninit"@)
            ==> known_name_for(crate_name, path) == KnownNames::StdMemMaybeUninitUninit,
{
    reveal_strlit("as_ptr");
    reveal_strlit("as_mut_ptr");
    reveal_strlit("alloc");
    reveal_strlit("mem");
    reveal_strlit("forget");
    reveal_strlit("uninitialized");
    reveal_strlit("size_of");
    reveal_strlit("manually_drop");
    reveal_strlit("MaybeUninit");
    reveal_strlit("new");
    reveal_strlit("uninit");
    assert("mem"@ != "alloc"@) by {
        assert("mem"@.len() != "alloc"@.len());
    }
    assert("forget"@ != "as_ptr"@) by {
        assert("forget"@[0] != "as_ptr"@[0]);
    }
    assert("forget"@ != "as_mut_ptr"@) by {
        assert("forget"@.len() != "as_mut_ptr"@.len());
    }
    assert("uninitialized"@ != "as_ptr"@) by {
        assert("uninitialized"@.len() != "as_ptr"@.len());
    }
    assert("uninitialized"@ != "as_mut_ptr"@) by {
        assert("uninitialized"@.len() != "as_mut_ptr"@.len());
    }
    assert("size_of"@ != "as_ptr"@) by {
        assert("size_of"@.len() != "as_ptr"@.len());
    }
    assert("size_of"@ != "as_mut_ptr"@) by {
        assert("size_of"@.len() != "as_mut_ptr"@.len());
    }
    assert("new"@ != "as_ptr"@) by {
        assert("new"@.len() != "as_ptr"@.len());
    }
    assert("new"@ != "as_mut_ptr"@) by {
        assert("new"@.len() != "as_mut_ptr"@.len());
    }
    assert("uninit"@ != "as_ptr"@) by {
        assert("uninit"@[0] != "as_ptr"@[0]);
    }
    assert("uninit"@ != "as_mut_ptr"@) by {
        assert("uninit"@.len() != "as_mut_ptr"@.len());
    }
    assert("forget"@ != "size_of"@) by {
        assert("forget"@.len() != "size_of"@.len());
    }
    assert("uninitialized"@ != "size_of"@) by {
        assert("uninitialized"@.len() != "size_of"@.len());
    }
    assert("uninitialized"@ != "forget"@) by {
        assert("uninitialized"@.len() != "forget"@.len());
    }
    assert("forget"@ != "manually_drop"@) by {
        assert("forget"@.len() != "manually_drop"@.len());
    }
    assert("forget"@ != "MaybeUninit"@) by {
        assert("forget"@.len() != "MaybeUninit"@.len());
    }
    assert("uninitialized"@ != "manually_drop"@) by {
        assert("uninitialized"@[0] != "manually_drop"@[0]);
    }
    assert("uninitialized"@ != "MaybeUninit"@) by {
        assert("uninitialized"@.len() != "MaybeUninit"@.len());
    }
    assert("size_of"@ != "manually_drop"@) by {
        assert("size_of"@.len() != "manually_drop"@.len());
    }
    assert("size_of"@ != "MaybeUninit"@) by {
        assert("size_of"@.len() != "MaybeUninit"@.len());
    }
    assert("manually_drop"@ != "MaybeUninit"@) by {
        assert("manually_drop"@.len() != "MaybeUninit"@.len());
    }
    assert(path.len() > 0 ==> known_crate_name(path) == mem_namespace(path));
    if path.len() == 2 && name_at(path, 1) == Some("forget"@) {
        lemma_standard_crate(crate_name, path, "forget"@);
    }
    if path.len() == 2 && name_at(path, 1) == Some("uninitialized"@) {
        lemma_standard_crate(crate_name, path, "uninitialized"@);
    }
    if path.len() == 2 && name_at(path, 1) == Some("size_of"@) {
        lemma_standard_crate(crate_name, path, "size_of"@);
    }
    if path.len() == 4 && name_at(path, 1) == Some("manually_drop"@) && name_at(path, 3) == Some("new"@) {
        lemma_standard_crate(crate_name, path, "new"@);
    }
    if path.len() == 3 && name_at(path, 1) == Some("MaybeUninit"@) && name_at(path, 2) == Some("uninit"@) {
        lemma_standard_crate(crate_name, path, "uninit"@);
    }
}

/// The `Vec` functions that the ownership analysis models are recognized in
/// the standard crates: `vec::Vec::set_len`, `with_capacity`, `reserve` and
/// `from_raw_parts` (the middle element may be `Vec` or an `impl` block).
pub proof fn law_vec_functions_known(crate_name: Seq<char>, path: Seq<DefPathElem>)
    requires
        crate_name == "alloc"@ || crate_name == "core"@ || crate_name == "std"@,
        path.len() == 3,
        name_at(path, 0) == Some("vec"@),
    ensures
        name_at(path, 2) == Some("set_len"@) ==> known_name_for(crate_name, path) == KnownNames::VecSetLen,
        name_at(path, 2) == Some("with_capacity"@) ==> known_name_for(crate_name, path) == KnownNames::VecWithCapacity,
        name_at(path, 2) == Some("reserve"@) ==> known_name_for(crate_name, path) == KnownNames::VecReserve,
        name_at(path, 2) == Some("from_raw_parts"@) ==> known_name_for(crate_name, path) == KnownNames::VecFromRawParts,
{
    reveal_strlit("as_ptr");
    reveal_strlit("as_mut_ptr");
    reveal_strlit("alloc");
    reveal_strlit("mem");
    reveal_strlit("boxed");
    reveal_strlit("ops");
    reveal_strlit("slice");
    reveal_strlit("panicking");
    reveal_strlit("convert");
    reveal_strlit("vec");
    reveal_strlit("set_len");
    reveal_strlit("with_capacity");
    reveal_strlit("reserve");
    reveal_strlit("from_raw_parts");
    assert("vec"@ != "alloc"@) by {
        assert("vec"@.len() != "alloc"@.len());
    }
    assert("vec"@ != "mem"@) by {
        assert("vec"@[0] != "mem"@[0]);
    }
    assert("vec"@ != "boxed"@) by {
        assert("vec"@.len() != "boxed"@.len());
    }
    assert("vec"@ != "ops"@) by {
        assert("vec"@[0] != "ops"@[0]);
    }
    assert("vec"@ != "slice"@) by {
        assert("vec"@.len() != "slice"@.len());
    }
    assert("vec"@ != "panicking"@) by {
        assert("vec"@.len() != "panicking"@.len());
    }
    assert("vec"@ != "convert"@) by {
        assert("vec"@.len() != "convert"@.len());
    }
    assert("set_len"@ != "as_ptr"@) by {
        assert("set_len"@.len() != "as_ptr"@.len());
    }
    assert("set_len"@ != "as_mut_ptr"@) by {
        assert("set_len"@.len() != "as_mut_ptr"@.len());
    }
    assert("with_capacity"@ != "as_ptr"@) by {
        assert("with_capacity"@.len() != "as_ptr"@.len());
    }
    assert("with_capacity"@ != "as_mut_ptr"@) by {
        assert("with_capacity"@.len() != "as_mut_ptr"@.len());
    }
    assert("reserve"@ != "as_ptr"@) by {
        assert("reserve"@.len() != "as_ptr"@.len());
    }
    assert("reserve"@ != "as_mut_ptr"@) by {
        assert("reserve"@.len() != "as_mut_ptr"@.len());
    }
    assert("from_raw_parts"@ != "as_ptr"@) by {
        assert("from_raw_parts"@.len() != "as_ptr"@.len());
    }
    assert("from_raw_parts"@ != "as_mut_ptr"@) by {
        assert("from_raw_parts"@.len() != "as_mut_ptr"@.len());
    }
    assert("set_len"@ != "from_raw_parts"@) by {
        assert("set_len"@.len() != "from_raw_parts"@.len());
    }
    assert("set_len"@ != "with_capacity"@) by {
        assert("set_len"@.len() != "with_capacity"@.len());
    }
    assert("set_len"@ != "reserve"@) by {
        assert("set_len"@[0] != "reserve"@[0]);
    }
    assert("reserve"@ != "from_raw_parts"@) by {
        assert("reserve"@.len() != "from_raw_parts"@.len());
    }
    assert("reserve"@ != "with_capacity"@) by {
        assert("reserve"@.len() != "with_capacity"@.len());
    }
    assert("with_capacity"@ != "from_raw_parts"@) by {
        assert("with_capacity"@.len() != "from_raw_parts"@.len());
    }
    assert(known_crate_name(path) == lookup(name_at(path, 2), |m: Seq<char>| vec_names(m)));
    if name_at(path, 2) == Some("set_len"@) {
        lemma_standard_crate(crate_name, path, "set_len"@);
    }
    if name_at(path, 2) == Some("with_capacity"@) {
        lemma_standard_crate(crate_name, path, "with_capacity"@);
    }
    if name_at(path, 2) == Some("reserve"@) {
        lemma_standard_crate(crate_name, path, "reserve"@);
    }
    if name_at(path, 2) == Some("from_raw_parts"@) {
        lemma_standard_crate(crate_name, path, "from_raw_parts"@);
    }
}

/// A crate other than the standard ones has no well known functions, except
/// the pointer accessors `as_ptr` and `as_mut_ptr`, recognized anywhere.
pub proof fn law_other_crates_unknown(crate_name: Seq<char>, path: Seq<DefPathElem>)
    requires
        !(crate_name == "alloc"@ || crate_name == "core"@ || crate_name == "macros"@ || crate_name == "std"@),
        name_at(path, path.len() - 1) != Some("as_ptr"@),
        name_at(path, path.len() - 1) != Some("as_mut_ptr"@),
    ensures
        known_name_for(crate_name, path) == KnownNames::NotKnown,
{
}

} // verus!
