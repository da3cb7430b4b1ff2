//! The symbols that are fed to the network and those that it predicts.

use vstd::prelude::*;

verus! {

/// The alphabet of a model: which symbols may be fed to it, which of them it predicts
/// and under which class, and the two symbols that mark the ends of a document.
#[derive(Debug, Clone)]
pub struct Alphabet {
    /// For each symbol, whether it may be fed to the network.
    pub input: Vec<bool>,
    /// For each symbol, the output class that stands for it, if it is predicted.
    pub class_of: Vec<Option<usize>>,
    /// For each output class, its symbol.
    pub symbol_of: Vec<u32>,
    /// The number of output classes.
    pub output_classes: usize,
    /// The symbol that opens a document.
    pub begin_document: u32,
    /// The symbol that closes a document.
    pub end_document: u32,
    /// The output class of the symbol that closes a document.
    pub end_document_class: usize,
}

impl Alphabet {
    /// Every symbol with a class is the symbol of that class.
    pub open spec fn classes_known(self) -> bool {
        forall|s: int|
            0 <= s < self.class_of.len() ==> (#[trigger] self.class_of[s] matches Some(c) ==> c
                < self.output_classes && self.symbol_of[c as int] == s)
    }

    /// Every class has a symbol of which it is the class.
    pub open spec fn symbols_known(self) -> bool {
        forall|c: int|
            0 <= c < self.symbol_of.len() ==> (#[trigger] self.symbol_of[c]) < self.class_of.len()
                && self.class_of[self.symbol_of[c] as int] == Some(c as usize)
    }

    /// Every byte can be fed and predicted.
    pub open spec fn bytes_known(self) -> bool {
        forall|b: u32| b < 256 ==> #[trigger] self.accepts(b) && self.class(b) is Some
    }

    /// Every table has its length, classes and symbols name each other, the first marker
    /// can be fed, the second predicted, and every byte can be both.
    pub open spec fn wf(self) -> bool {
        &&& self.class_of.len() == self.input.len()
        &&& self.symbol_of.len() == self.output_classes
        &&& self.classes_known()
        &&& self.symbols_known()
        &&& self.accepts(self.begin_document)
        &&& self.class(self.end_document) == Some(self.end_document_class)
        &&& self.bytes_known()
    }

    /// The symbol may be fed to the network.
    pub open spec fn accepts(self, symbol: u32) -> bool {
        symbol < self.input.len() && self.input[symbol as int]
    }

    /// The output class of a symbol.
    pub open spec fn class(self, symbol: u32) -> Option<usize> {
        if symbol < self.class_of.len() {
            self.class_of[symbol as int]
        } else {
            None
        }
    }

    /// The number of symbols.
    pub fn symbol_count(&self) -> (r: usize)
        ensures
            r == self.input.len(),
    {
        self.input.len()
    }

    /// Whether the symbol may be fed to the network.
    pub fn is_input_symbol(&self, symbol: u32) -> (r: bool)
        ensures
            r == self.accepts(symbol),
    {
        (symbol as usize) < self.input.len() && self.input[symbol as usize]
    }

    /// The output class of a symbol.
    pub fn output_symbol_to_index(&self, symbol: u32) -> (r: Option<usize>)
        ensures
            r == self.class(symbol),
    {
        if (symbol as usize) < self.class_of.len() {
            self.class_of[symbol as usize]
        } else {
            None
        }
    }

    /// The symbol of an output class.
    pub fn output_index_to_symbol(&self, index: usize) -> (r: Option<u32>)
        ensures
            r == (if index < self.symbol_of.len() {
                Some(self.symbol_of[index as int])
            } else {
                None::<u32>
            }),
    {
        if index < self.symbol_of.len() {
            Some(self.symbol_of[index])
        } else {
            None
        }
    }
}

impl Alphabet {
    /// The two alphabets have the same symbols, classes and markers.
    pub open spec fn same_as(self, other: Alphabet) -> bool {
        &&& self.input@ == other.input@
        &&& self.class_of@ == other.class_of@
        &&& self.symbol_of@ == other.symbol_of@
        &&& self.output_classes == other.output_classes
        &&& self.begin_document == other.begin_document
        &&& self.end_document == other.end_document
        &&& self.end_document_class == other.end_document_class
    }

    /// A copy of the alphabet.
    pub fn copied(&self) -> (r: Alphabet)
        ensures
            r.same_as(*self),
            self.wf() ==> r.wf(),
    {
        let mut input: Vec<bool> = Vec::new();
        let mut i: usize = 0;
        while i < self.input.len()
            invariant
                i <= self.input.len(),
                input@ == self.input@.take(i as int),
            decreases self.input.len() - i,
        {
            input.push(self.input[i]);
            i = i + 1;
            assert(input@ =~= self.input@.take(i as int));
        }
        let mut class_of: Vec<Option<usize>> = Vec::new();
        let mut j: usize = 0;
        while j < self.class_of.len()
            invariant
                j <= self.class_of.len(),
                class_of@ == self.class_of@.take(j as int),
            decreases self.class_of.len() - j,
        {
            class_of.push(self.class_of[j]);
            j = j + 1;
            assert(class_of@ =~= self.class_of@.take(j as int));
        }
        let mut symbol_of: Vec<u32> = Vec::new();
        let mut k: usize = 0;
        while k < self.symbol_of.len()
            invariant
                k <= self.symbol_of.len(),
                symbol_of@ == self.symbol_of@.take(k as int),
            decreases self.symbol_of.len() - k,
        {
            symbol_of.push(self.symbol_of[k]);
            k = k + 1;
            assert(symbol_of@ =~= self.symbol_of@.take(k as int));
        }
        let r: Alphabet = Alphabet {
            input,
            class_of,
            symbol_of,
            output_classes: self.output_classes,
            begin_document: self.begin_document,
            end_document: self.end_document,
            end_document_class: self.end_document_class,
        };
        proof {
            assert(r.input@ =~= self.input@);
            assert(r.class_of@ =~= self.class_of@);
            assert(r.symbol_of@ =~= self.symbol_of@);
            if self.wf() {
                assert forall|s: int| 0 <= s < r.class_of.len() implies (
                #[trigger] r.class_of[s] matches Some(c) ==> c < r.output_classes
                    && r.symbol_of[c as int] == s) by {
                    assert(r.class_of[s] == self.class_of[s]);
                }
                assert forall|c: int| 0 <= c < r.symbol_of.len() implies (
                #[trigger] r.symbol_of[c]) < r.class_of.len() && r.class_of[r.symbol_of[c] as int]
                    == Some(c as usize) by {
                    assert(r.symbol_of[c] == self.symbol_of[c]);
                }
                assert forall|b: u32| b < 256 implies #[trigger] r.accepts(b) && r.class(
                    b,
                ) is Some by {
                    assert(self.accepts(b));
                    assert(self.class(b) is Some);
                }
                assert(r.accepts(r.begin_document) == self.accepts(self.begin_document));
                assert(r.class(r.end_document) == self.class(self.end_document));
                assert(r.classes_known());
                assert(r.symbols_known());
                assert(r.bytes_known());
                assert(r.wf());
            }
        }
        r
    }
}

/// Classes and symbols are each other's inverse.
pub proof fn law_class_and_symbol_invert(a: Alphabet, symbol: u32, class: usize)
    requires
        a.wf(),
    ensures
        a.class(symbol) == Some(class) <==> class < a.output_classes && a.symbol_of[class as int]
            == symbol,
{
    if symbol < a.class_of.len() {
        assert(a.class_of[symbol as int] matches Some(c) ==> a.symbol_of[c as int] == symbol);
    }
    if class < a.output_classes {
        assert(a.symbol_of[class as int] < a.class_of.len());
    }
}

} // verus!
