//! Output entries of pass 1: a finished 32-bit word, or a partial word
//! pending a relative or absolute label patch in pass 2.

use vstd::prelude::*;

verus! {

/// One line of the output under construction.  `WithoutLabel` carries a
/// finished 32-bit word; the other two carry the already-encoded leading
/// bits and the label whose field pass 2 appends.
#[derive(Debug)]
pub enum BinEntry {
    /// Pending absolute reference: leading bits, then the label.
    WithAbsLabel(String, String),
    /// Pending relative reference: leading bits, then the label.
    WithRelLabel(String, String),
    /// A finished word.
    WithoutLabel(String),
}

/// The mathematical shadow of [`BinEntry`].
pub enum EntryV {
    Abs { bits: Seq<char>, label: Seq<char> },
    Rel { bits: Seq<char>, label: Seq<char> },
    Plain { bits: Seq<char> },
}

impl View for BinEntry {
    type V = EntryV;

    open spec fn view(&self) -> EntryV {
        match self {
            BinEntry::WithAbsLabel(b, l) => EntryV::Abs { bits: b@, label: l@ },
            BinEntry::WithRelLabel(b, l) => EntryV::Rel { bits: b@, label: l@ },
            BinEntry::WithoutLabel(b) => EntryV::Plain { bits: b@ },
        }
    }
}

impl DeepView for BinEntry {
    type V = EntryV;

    open spec fn deep_view(&self) -> EntryV {
        self.view()
    }
}

/// The bits an entry currently carries.
pub open spec fn entry_bits(e: EntryV) -> Seq<char> {
    match e {
        EntryV::Abs { bits, .. } => bits,
        EntryV::Rel { bits, .. } => bits,
        EntryV::Plain { bits } => bits,
    }
}

impl BinEntry {
    /// The same kind of entry with its bits replaced.
    pub fn update_str(&self, new_str: String) -> (r: BinEntry)
        ensures
            r@ == match self@ {
                EntryV::Abs { label, .. } => EntryV::Abs { bits: new_str@, label },
                EntryV::Rel { label, .. } => EntryV::Rel { bits: new_str@, label },
                EntryV::Plain { .. } => EntryV::Plain { bits: new_str@ },
            },
    {
        match self {
            BinEntry::WithRelLabel(_, label) => BinEntry::WithRelLabel(new_str, label.clone()),
            BinEntry::WithAbsLabel(_, label) => BinEntry::WithAbsLabel(new_str, label.clone()),
            BinEntry::WithoutLabel(_) => BinEntry::WithoutLabel(new_str),
        }
    }

    /// The bits an entry currently carries.
    pub fn get_string(&self) -> (r: String)
        ensures
            r@ == entry_bits(self@),
    {
        match self {
            BinEntry::WithRelLabel(bin, _) => bin.clone(),
            BinEntry::WithAbsLabel(bin, _) => bin.clone(),
            BinEntry::WithoutLabel(bin) => bin.clone(),
        }
    }
}

} // verus!
