//! Errors raised while parsing layout markup and painting layout trees.

use vstd::prelude::*;

verus! {

/// A failure in markup parsing, measurement, layout, or colour filtering.
#[derive(Clone, Copy, Debug, PartialEq, Eq, Structural)]
pub enum LayoutError {
    TabOrCarriageReturn,
    TruncatedEscape,
    TruncatedCsi,
    TruncatedOsc,
    OnOverflowOutsideFlex,
    MultipleOnOverflow,
    OnOverflowWithoutScroll,
    UnterminatedMarker,
    UnexpectedClosingMarker,
    TextOutsideRoot,
    NodeOutsideRoot,
    MismatchedClosingMarker,
    InvalidButtonActionMarker,
    InvalidButtonFocusedMarker,
    InvalidButtonMarker,
    UnknownMarker,
    UnclosedHelper,
    ButtonContainsHelpers,
    InvalidFlexMarker,
    InvalidFlexDirection,
    InvalidFlexGrow,
    InvalidFlexShrink,
    InvalidFlexBasis,
    InvalidFlexGap,
    InvalidFlexJustify,
    InvalidFlexAlign,
    InvalidFlexOverflow,
    InvalidColor,
}

/// The human-readable detail of each error.
pub open spec fn error_text(e: LayoutError) -> Seq<char> {
    match e {
        LayoutError::TabOrCarriageReturn => "template text cannot contain tabs or carriage returns"@,
        LayoutError::TruncatedEscape => "truncated ANSI escape"@,
        LayoutError::TruncatedCsi => "truncated ANSI CSI sequence"@,
        LayoutError::TruncatedOsc => "truncated ANSI OSC sequence"@,
        LayoutError::OnOverflowOutsideFlex => "OnOverflow must be a direct child of Flex"@,
        LayoutError::MultipleOnOverflow => "Flex accepts at most one OnOverflow child"@,
        LayoutError::OnOverflowWithoutScroll => "OnOverflow parent Flex must use overflow=\"scroll\""@,
        LayoutError::UnterminatedMarker => "unterminated internal marker"@,
        LayoutError::UnexpectedClosingMarker => "unexpected closing marker"@,
        LayoutError::TextOutsideRoot => "text outside layout root"@,
        LayoutError::NodeOutsideRoot => "node outside layout root"@,
        LayoutError::MismatchedClosingMarker => "mismatched closing marker"@,
        LayoutError::InvalidButtonActionMarker => "invalid Button action marker"@,
        LayoutError::InvalidButtonFocusedMarker => "invalid Button focused marker"@,
        LayoutError::InvalidButtonMarker => "invalid Button marker"@,
        LayoutError::UnknownMarker => "unknown internal marker"@,
        LayoutError::UnclosedHelper => "unclosed layout helper"@,
        LayoutError::ButtonContainsHelpers => "Button cannot contain layout helpers"@,
        LayoutError::InvalidFlexMarker => "invalid Flex marker"@,
        LayoutError::InvalidFlexDirection => "invalid Flex direction"@,
        LayoutError::InvalidFlexGrow => "invalid Flex grow"@,
        LayoutError::InvalidFlexShrink => "invalid Flex shrink"@,
        LayoutError::InvalidFlexBasis => "invalid Flex basis"@,
        LayoutError::InvalidFlexGap => "invalid Flex gap"@,
        LayoutError::InvalidFlexJustify => "invalid Flex justify"@,
        LayoutError::InvalidFlexAlign => "invalid Flex align"@,
        LayoutError::InvalidFlexOverflow => "invalid Flex overflow"@,
        LayoutError::InvalidColor => "color must be rgb:R,G,B or index:N"@,
    }
}

impl LayoutError {
    /// The error's detail text.
    pub fn message(&self) -> (r: &'static str)
        ensures
            r@ == error_text(*self),
    {
        match self {
            LayoutError::TabOrCarriageReturn => "template text cannot contain tabs or carriage returns",
            LayoutError::TruncatedEscape => "truncated ANSI escape",
            LayoutError::TruncatedCsi => "truncated ANSI CSI sequence",
            LayoutError::TruncatedOsc => "truncated ANSI OSC sequence",
            LayoutError::OnOverflowOutsideFlex => "OnOverflow must be a direct child of Flex",
            LayoutError::MultipleOnOverflow => "Flex accepts at most one OnOverflow child",
            LayoutError::OnOverflowWithoutScroll => "OnOverflow parent Flex must use overflow=\"scroll\"",
            LayoutError::UnterminatedMarker => "unterminated internal marker",
            LayoutError::UnexpectedClosingMarker => "unexpected closing marker",
            LayoutError::TextOutsideRoot => "text outside layout root",
            LayoutError::NodeOutsideRoot => "node outside layout root",
            LayoutError::MismatchedClosingMarker => "mismatched closing marker",
            LayoutError::InvalidButtonActionMarker => "invalid Button action marker",
            LayoutError::InvalidButtonFocusedMarker => "invalid Button focused marker",
            LayoutError::InvalidButtonMarker => "invalid Button marker",
            LayoutError::UnknownMarker => "unknown internal marker",
            LayoutError::UnclosedHelper => "unclosed layout helper",
            LayoutError::ButtonContainsHelpers => "Button cannot contain layout helpers",
            LayoutError::InvalidFlexMarker => "invalid Flex marker",
            LayoutError::InvalidFlexDirection => "invalid Flex direction",
            LayoutError::InvalidFlexGrow => "invalid Flex grow",
            LayoutError::InvalidFlexShrink => "invalid Flex shrink",
            LayoutError::InvalidFlexBasis => "invalid Flex basis",
            LayoutError::InvalidFlexGap => "invalid Flex gap",
            LayoutError::InvalidFlexJustify => "invalid Flex justify",
            LayoutError::InvalidFlexAlign => "invalid Flex align",
            LayoutError::InvalidFlexOverflow => "invalid Flex overflow",
            LayoutError::InvalidColor => "color must be rgb:R,G,B or index:N",
        }
    }
}

} // verus!
