//! The integer element types.

use vstd::prelude::*;

use crate::ctype::CType;

verus! {

impl CType for u8 {
    open spec fn as_int(self) -> int {
        self as int
    }

    open spec fn min_int() -> int {
        0
    }

    open spec fn max_int() -> int {
        0xff
    }

    open spec fn from_int(value: int) -> Self {
        value as u8
    }

    proof fn lemma_limits() {
    }

    proof fn lemma_as_int(self) {
    }

    proof fn lemma_from_int(value: int) {
    }

    fn widen(self) -> (wide: i128) {
        self as i128
    }

    fn narrow(wide: i128) -> (narrow: Option<Self>) {
        if 0 <= wide && wide <= 0xff {
            Some(wide as u8)
        } else {
            None
        }
    }

    fn min_value() -> (least: Self) {
        u8::MIN
    }

    fn max_value() -> (greatest: Self) {
        u8::MAX
    }
}

impl CType for u16 {
    open spec fn as_int(self) -> int {
        self as int
    }

    open spec fn min_int() -> int {
        0
    }

    open spec fn max_int() -> int {
        0xffff
    }

    open spec fn from_int(value: int) -> Self {
        value as u16
    }

    proof fn lemma_limits() {
    }

    proof fn lemma_as_int(self) {
    }

    proof fn lemma_from_int(value: int) {
    }

    fn widen(self) -> (wide: i128) {
        self as i128
    }

    fn narrow(wide: i128) -> (narrow: Option<Self>) {
        if 0 <= wide && wide <= 0xffff {
            Some(wide as u16)
        } else {
            None
        }
    }

    fn min_value() -> (least: Self) {
        u16::MIN
    }

    fn max_value() -> (greatest: Self) {
        u16::MAX
    }
}

impl CType for u32 {
    open spec fn as_int(self) -> int {
        self as int
    }

    open spec fn min_int() -> int {
        0
    }

    open spec fn max_int() -> int {
        0xffff_ffff
    }

    open spec fn from_int(value: int) -> Self {
        value as u32
    }

    proof fn lemma_limits() {
    }

    proof fn lemma_as_int(self) {
    }

    proof fn lemma_from_int(value: int) {
    }

    fn widen(self) -> (wide: i128) {
        self as i128
    }

    fn narrow(wide: i128) -> (narrow: Option<Self>) {
        if 0 <= wide && wide <= 0xffff_ffff {
            Some(wide as u32)
        } else {
            None
        }
    }

    fn min_value() -> (least: Self) {
        u32::MIN
    }

    fn max_value() -> (greatest: Self) {
        u32::MAX
    }
}

impl CType for u64 {
    open spec fn as_int(self) -> int {
        self as int
    }

    open spec fn min_int() -> int {
        0
    }

    open spec fn max_int() -> int {
        0xffff_ffff_ffff_ffff
    }

    open spec fn from_int(value: int) -> Self {
        value as u64
    }

    proof fn lemma_limits() {
    }

    proof fn lemma_as_int(self) {
    }

    proof fn lemma_from_int(value: int) {
    }

    fn widen(self) -> (wide: i128) {
        self as i128
    }

    fn narrow(wide: i128) -> (narrow: Option<Self>) {
        if 0 <= wide && wide <= 0xffff_ffff_ffff_ffff {
            Some(wide as u64)
        } else {
            None
        }
    }

    fn min_value() -> (least: Self) {
        u64::MIN
    }

    fn max_value() -> (greatest: Self) {
        u64::MAX
    }
}

impl CType for i8 {
    open spec fn as_int(self) -> int {
        self as int
    }

    open spec fn min_int() -> int {
        -0x80
    }

    open spec fn max_int() -> int {
        0x7f
    }

    open spec fn from_int(value: int) -> Self {
        value as i8
    }

    proof fn lemma_limits() {
    }

    proof fn lemma_as_int(self) {
    }

    proof fn lemma_from_int(value: int) {
    }

    fn widen(self) -> (wide: i128) {
        self as i128
    }

    fn narrow(wide: i128) -> (narrow: Option<Self>) {
        if -0x80 <= wide && wide <= 0x7f {
            Some(wide as i8)
        } else {
            None
        }
    }

    fn min_value() -> (least: Self) {
        i8::MIN
    }

    fn max_value() -> (greatest: Self) {
        i8::MAX
    }
}

impl CType for i16 {
    open spec fn as_int(self) -> int {
        self as int
    }

    open spec fn min_int() -> int {
        -0x8000
    }

    open spec fn max_int() -> int {
        0x7fff
    }

    open spec fn from_int(value: int) -> Self {
        value as i16
    }

    proof fn lemma_limits() {
    }

    proof fn lemma_as_int(self) {
    }

    proof fn lemma_from_int(value: int) {
    }

    fn widen(self) -> (wide: i128) {
        self as i128
    }

    fn narrow(wide: i128) -> (narrow: Option<Self>) {
        if -0x8000 <= wide && wide <= 0x7fff {
            Some(wide as i16)
        } else {
            None
        }
    }

    fn min_value() -> (least: Self) {
        i16::MIN
    }

    fn max_value() -> (greatest: Self) {
        i16::MAX
    }
}

impl CType for i32 {
    open spec fn as_int(self) -> int {
        self as int
    }

    open spec fn min_int() -> int {
        -0x8000_0000
    }

    open spec fn max_int() -> int {
        0x7fff_ffff
    }

    open spec fn from_int(value: int) -> Self {
        value as i32
    }

    proof fn lemma_limits() {
    }

    proof fn lemma_as_int(self) {
    }

    proof fn lemma_from_int(value: int) {
    }

    fn widen(self) -> (wide: i128) {
        self as i128
    }

    fn narrow(wide: i128) -> (narrow: Option<Self>) {
        if -0x8000_0000 <= wide && wide <= 0x7fff_ffff {
            Some(wide as i32)
        } else {
            None
        }
    }

    fn min_value() -> (least: Self) {
        i32::MIN
    }

    fn max_value() -> (greatest: Self) {
        i32::MAX
    }
}

impl CType for i64 {
    open spec fn as_int(self) -> int {
        self as int
    }

    open spec fn min_int() -> int {
        -0x8000_0000_0000_0000
    }

    open spec fn max_int() -> int {
        0x7fff_ffff_ffff_ffff
    }

    open spec fn from_int(value: int) -> Self {
        value as i64
    }

    proof fn lemma_limits() {
    }

    proof fn lemma_as_int(self) {
    }

    proof fn lemma_from_int(value: int) {
    }

    fn widen(self) -> (wide: i128) {
        self as i128
    }

    fn narrow(wide: i128) -> (narrow: Option<Self>) {
        if -0x8000_0000_0000_0000 <= wide && wide <= 0x7fff_ffff_ffff_ffff {
            Some(wide as i64)
        } else {
            None
        }
    }

    fn min_value() -> (least: Self) {
        i64::MIN
    }

    fn max_value() -> (greatest: Self) {
        i64::MAX
    }
}

} // verus!
