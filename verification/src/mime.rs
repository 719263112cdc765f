//! MIME descriptors for composite metadata entries: either a code from the
//! well-known 7-bit enumeration, or an explicit UTF-8 string of 1 to 128
//! bytes (carried on the wire as its length minus one, then its bytes).

use vstd::prelude::*;
use vstd::utf8::encode_utf8;

verus! {

/// A MIME descriptor.
#[derive(Debug, Clone)]
pub enum MimeType {
    /// A code of the well-known enumeration; 7 bits.
    WellKnown(u8),
    /// An explicit descriptor string; 1 to 128 bytes of UTF-8.
    Normal(String),
}

/// Spec view of a MIME descriptor.
pub enum MimeTypeView {
    WellKnown(u8),
    Normal(Seq<char>),
}

impl View for MimeType {
    type V = MimeTypeView;

    open spec fn view(&self) -> MimeTypeView {
        match self {
            MimeType::WellKnown(c) => MimeTypeView::WellKnown(*c),
            MimeType::Normal(s) => MimeTypeView::Normal(s@),
        }
    }
}

impl DeepView for MimeType {
    type V = MimeTypeView;

    open spec fn deep_view(&self) -> MimeTypeView {
        self.view()
    }
}

impl MimeTypeView {
    /// Validity: a well-known code fits 7 bits; an explicit descriptor
    /// encodes to 1 to 128 bytes, so its length fits the 7-bit field that
    /// carries length minus one.
    pub open spec fn wf(&self) -> bool {
        match self {
            MimeTypeView::WellKnown(c) => *c < 0x80,
            MimeTypeView::Normal(s) => 1 <= encode_utf8(*s).len() <= 0x80,
        }
    }
}

impl MimeType {
    /// Validity of this descriptor.
    pub open spec fn wf(&self) -> bool {
        self@.wf()
    }

    /// A well-known descriptor; rejects codes that do not fit 7 bits.
    pub fn well_known(code: u8) -> (r: Option<MimeType>)
        ensures
            r is Some <==> code < 0x80,
            r matches Some(m) ==> m@ == MimeTypeView::WellKnown(code) && m.wf(),
    {
        if code < 0x80 {
            Some(MimeType::WellKnown(code))
        } else {
            None
        }
    }

    /// An explicit descriptor; rejects strings whose UTF-8 form is empty or
    /// longer than 128 bytes.
    pub fn normal(s: String) -> (r: Option<MimeType>)
        ensures
            r is Some <==> 1 <= encode_utf8(s@).len() <= 0x80,
            r matches Some(m) ==> m@ == MimeTypeView::Normal(s@) && m.wf(),
    {
        let n = s.as_str().as_bytes().len();
        if 1 <= n && n <= 0x80 {
            Some(MimeType::Normal(s))
        } else {
            None
        }
    }
}

} // verus!
