//! The layout engines a downstream graph renderer can be asked to use.

use vstd::prelude::*;

verus! {

/// A Graphviz layout engine.
#[derive(Debug, Clone, Copy, PartialEq, Eq, Structural)]
pub enum LayoutEngine {
    Dot,
    Neato,
    Fdp,
    Circo,
}

impl LayoutEngine {
    /// The engine named by the given text, if any.
    pub fn from_name(s: &str) -> (r: Option<LayoutEngine>)
        ensures
            r == Some(LayoutEngine::Dot) <==> s@ == "dot"@,
            r == Some(LayoutEngine::Neato) <==> s@ == "neato"@,
            r == Some(LayoutEngine::Fdp) <==> s@ == "fdp"@,
            r == Some(LayoutEngine::Circo) <==> s@ == "circo"@,
            r is None <==> (s@ != "dot"@ && s@ != "neato"@ && s@ != "fdp"@ && s@ != "circo"@),
    {
        proof {
            reveal_strlit("dot");
            reveal_strlit("neato");
            reveal_strlit("fdp");
            reveal_strlit("circo");
            assert("dot"@.len() == 3);
            assert("neato"@.len() == 5);
            assert("fdp"@.len() == 3);
            assert("circo"@.len() == 5);
            assert("dot"@[0] == 'd' && "fdp"@[0] == 'f');
            assert("neato"@[0] == 'n' && "circo"@[0] == 'c');
        }
        if crate::text::str_eq(s, "dot") {
            Some(LayoutEngine::Dot)
        } else if crate::text::str_eq(s, "neato") {
            Some(LayoutEngine::Neato)
        } else if crate::text::str_eq(s, "fdp") {
            Some(LayoutEngine::Fdp)
        } else if crate::text::str_eq(s, "circo") {
            Some(LayoutEngine::Circo)
        } else {
            None
        }
    }

    /// The engine's name, as the renderer expects it.
    pub fn name(&self) -> (r: &'static str)
        ensures
            *self == LayoutEngine::Dot ==> r@ == "dot"@,
            *self == LayoutEngine::Neato ==> r@ == "neato"@,
            *self == LayoutEngine::Fdp ==> r@ == "fdp"@,
            *self == LayoutEngine::Circo ==> r@ == "circo"@,
    {
        match self {
            LayoutEngine::Dot => "dot",
            LayoutEngine::Neato => "neato",
            LayoutEngine::Fdp => "fdp",
            LayoutEngine::Circo => "circo",
        }
    }
}

} // verus!
