//! Machine images: a passive descriptor holding symbol tables and the
//! static and text sections, consulted only while mounting.

use vstd::prelude::*;
use crate::hosts::assoc_find;
use crate::hosts::lemma_assoc_skip;

verus! {

/// A mountable machine image. The tables advertise only the externally
/// visible symbols and need not be exhaustive.
pub struct Image {
    /// Public symbols of the text section, as offsets into it.
    pub function_table: Vec<(String, i64)>,
    /// Public symbols of the static section, as offsets into it.
    pub static_table: Vec<(String, i64)>,
    /// Bytes copied to offset 0 at mount time.
    pub static_section: Vec<u8>,
    /// Bytecode, copied directly after the static section.
    pub text_section: Vec<u8>,
}

impl Image {
    /// The function table as an association sequence.
    pub open spec fn ftab(&self) -> Seq<(Seq<char>, int)> {
        self.function_table@.map_values(|p: (String, i64)| (p.0@, p.1 as int))
    }

    /// The static table as an association sequence.
    pub open spec fn stab(&self) -> Seq<(Seq<char>, int)> {
        self.static_table@.map_values(|p: (String, i64)| (p.0@, p.1 as int))
    }

    /// The bytes of the static section.
    pub open spec fn statics(&self) -> Seq<u8> {
        self.static_section@
    }

    /// The bytes of the text section.
    pub open spec fn text(&self) -> Seq<u8> {
        self.text_section@
    }

    /// Resolves a public symbol to its absolute code offset: the length of
    /// the static section plus the symbol's offset into the text section.
    pub fn lookup(&self, thing: String) -> (r: i64)
        requires
            assoc_find(self.ftab(), thing@) is Some,
            self.statics().len() <= i64::MAX,
            i64::MIN <= self.statics().len() + assoc_find(self.ftab(), thing@)->Some_0
                <= i64::MAX,
        ensures
            r as int == self.statics().len() + assoc_find(self.ftab(), thing@)->Some_0,
    {
        let n = self.function_table.len();
        let mut i: usize = 0;
        while i < n
            invariant
                n == self.function_table.len(),
                0 <= i <= n,
                forall|j: int| 0 <= j < i ==> (#[trigger] self.ftab()[j]).0 != thing@,
                assoc_find(self.ftab(), thing@) is Some,
                self.statics().len() <= i64::MAX,
                i64::MIN <= self.statics().len() + assoc_find(self.ftab(), thing@)->Some_0
                    <= i64::MAX,
            decreases n - i,
        {
            assert(self.ftab()[i as int]
                == (self.function_table@[i as int].0@, self.function_table@[i as int].1 as int));
            if self.function_table[i].0 == thing {
                proof {
                    lemma_assoc_skip(self.ftab(), thing@, i as int);
                }
                return self.static_section.len() as i64 + self.function_table[i].1;
            }
            i = i + 1;
        }
        proof {
            lemma_assoc_skip(self.ftab(), thing@, n as int);
        }
        unreached()
    }
}

} // verus!
