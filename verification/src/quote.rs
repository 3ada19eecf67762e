use vstd::prelude::*;

verus! {

/// A stored saying: who said it and the text itself.
#[derive(Debug)]
pub struct Quote {
    pub author: String,
    pub quote: String,
}

/// The mathematical content of a `Quote`: both fields as character sequences.
pub ghost struct QuoteView {
    pub author: Seq<char>,
    pub quote: Seq<char>,
}

impl View for Quote {
    type V = QuoteView;

    open spec fn view(&self) -> QuoteView {
        QuoteView { author: self.author@, quote: self.quote@ }
    }
}

impl Clone for Quote {
    fn clone(&self) -> (r: Self)
        ensures
            r@ == self@,
    {
        Quote { author: self.author.clone(), quote: self.quote.clone() }
    }
}

} // verus!
