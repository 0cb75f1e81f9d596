use vstd::prelude::*;
use crate::chars::{alpha_byte, ident_byte};
use vstd::string::StringSliceAdditionalSpecFns;

verus! {

/// The bytes of an ASCII text.
pub open spec fn ascii(s: Seq<char>) -> Seq<u8> {
    s.map_values(|c: char| c as u8)
}

/// The words that open a top-level HCL block.
pub open spec fn block_keywords() -> Seq<Seq<u8>> {
    seq![
        ascii("resource"@),
        ascii("variable"@),
        ascii("output"@),
        ascii("data"@),
        ascii("module"@),
        ascii("provider"@),
        ascii("terraform"@),
        ascii("locals"@),
        ascii("moved"@),
        ascii("import"@),
        ascii("check"@),
        ascii("removed"@),
    ]
}

/// The words of HCL expressions that are highlighted as keywords.
pub open spec fn value_keywords() -> Seq<Seq<u8>> {
    seq![
        ascii("for"@),
        ascii("in"@),
        ascii("if"@),
        ascii("else"@),
        ascii("endif"@),
        ascii("endfor"@),
        ascii("dynamic"@),
        ascii("content"@),
        ascii("each"@),
        ascii("self"@),
        ascii("var"@),
        ascii("local"@),
        ascii("count"@),
        ascii("path"@),
    ]
}

/// A word that begins with a letter and is made of identifier bytes.
pub open spec fn word_shaped(w: Seq<u8>) -> bool {
    &&& w.len() > 0
    &&& alpha_byte(w[0])
    &&& forall|j: int| 0 <= j < w.len() ==> ident_byte(#[trigger] w[j])
}

/// Every block keyword is a word, and none of them is a boolean or `null`.
pub proof fn lemma_block_keywords_shape()
    ensures
        forall|k: int| 0 <= k < block_keywords().len() ==> word_shaped(#[trigger] block_keywords()[k]),
        !block_keywords().contains(ascii("true"@)),
        !block_keywords().contains(ascii("false"@)),
        !block_keywords().contains(ascii("null"@)),
{
    reveal_strlit("resource");
    reveal_strlit("variable");
    reveal_strlit("output");
    reveal_strlit("data");
    reveal_strlit("module");
    reveal_strlit("provider");
    reveal_strlit("terraform");
    reveal_strlit("locals");
    reveal_strlit("moved");
    reveal_strlit("import");
    reveal_strlit("check");
    reveal_strlit("removed");
    reveal_strlit("true");
    reveal_strlit("false");
    reveal_strlit("null");
    let kws = block_keywords();
    assert forall|k: int| 0 <= k < kws.len() implies word_shaped(#[trigger] kws[k]) by {
        let w = kws[k];
        assert forall|j: int| 0 <= j < w.len() implies ident_byte(#[trigger] w[j]) by {}
    }
    assert forall|k: int| 0 <= k < kws.len() implies kws[k] != ascii("true"@) by {
        assert(kws[k][0] != ascii("true"@)[0] || kws[k].len() != 4);
    }
    assert forall|k: int| 0 <= k < kws.len() implies kws[k] != ascii("false"@) by {
        assert(kws[k][0] != ascii("false"@)[0] || kws[k].len() != 5);
    }
    assert forall|k: int| 0 <= k < kws.len() implies kws[k] != ascii("null"@) by {
        assert(kws[k][0] != ascii("null"@)[0] || kws[k].len() != 4);
    }
}


/// None of the expression keywords is a boolean or `null`.
pub proof fn lemma_value_keywords_not_literals()
    ensures
        !value_keywords().contains(ascii("true"@)),
        !value_keywords().contains(ascii("false"@)),
        !value_keywords().contains(ascii("null"@)),
{
    reveal_strlit("for");
    reveal_strlit("in");
    reveal_strlit("if");
    reveal_strlit("else");
    reveal_strlit("endif");
    reveal_strlit("endfor");
    reveal_strlit("dynamic");
    reveal_strlit("content");
    reveal_strlit("each");
    reveal_strlit("self");
    reveal_strlit("var");
    reveal_strlit("local");
    reveal_strlit("count");
    reveal_strlit("path");
    reveal_strlit("true");
    reveal_strlit("false");
    reveal_strlit("null");
    let kws = value_keywords();
    assert forall|k: int| 0 <= k < kws.len() implies kws[k] != ascii("true"@) by {
        assert(kws[k][0] != ascii("true"@)[0] || kws[k].len() != 4);
    }
    assert forall|k: int| 0 <= k < kws.len() implies kws[k] != ascii("false"@) by {
        assert(kws[k][0] != ascii("false"@)[0] || kws[k].len() != 5);
    }
    assert forall|k: int| 0 <= k < kws.len() implies kws[k] != ascii("null"@) by {
        assert(kws[k][0] != ascii("null"@)[0] || kws[k].len() != 4);
    }
}

/// The bytes of an ASCII literal are its characters, one byte each.
pub proof fn lemma_ascii_literal(s: &str)
    requires
        vstd::string::is_ascii(s),
    ensures
        s.spec_bytes() == ascii(s@),
{
    vstd::string::is_ascii_spec_bytes(s);
    assert(s.spec_bytes() =~= ascii(s@));
}

/// The block keywords, as byte strings.
pub fn hcl_keywords() -> (r: Vec<&'static [u8]>)
    ensures
        r@.len() == block_keywords().len(),
        forall|k: int| 0 <= k < r@.len() ==> (#[trigger] r@[k])@ == block_keywords()[k],
{
    proof {
        reveal_strlit("resource");
        reveal_strlit("variable");
        reveal_strlit("output");
        reveal_strlit("data");
        reveal_strlit("module");
        reveal_strlit("provider");
        reveal_strlit("terraform");
        reveal_strlit("locals");
        reveal_strlit("moved");
        reveal_strlit("import");
        reveal_strlit("check");
        reveal_strlit("removed");
        lemma_ascii_literal("resource");
        lemma_ascii_literal("variable");
        lemma_ascii_literal("output");
        lemma_ascii_literal("data");
        lemma_ascii_literal("module");
        lemma_ascii_literal("provider");
        lemma_ascii_literal("terraform");
        lemma_ascii_literal("locals");
        lemma_ascii_literal("moved");
        lemma_ascii_literal("import");
        lemma_ascii_literal("check");
        lemma_ascii_literal("removed");
    }
    let v = vec![
        "resource".as_bytes(),
        "variable".as_bytes(),
        "output".as_bytes(),
        "data".as_bytes(),
        "module".as_bytes(),
        "provider".as_bytes(),
        "terraform".as_bytes(),
        "locals".as_bytes(),
        "moved".as_bytes(),
        "import".as_bytes(),
        "check".as_bytes(),
        "removed".as_bytes(),
    ];
    v
}


/// The expression keywords, as byte strings.
pub fn hcl_value_keywords() -> (r: Vec<&'static [u8]>)
    ensures
        r@.len() == value_keywords().len(),
        forall|k: int| 0 <= k < r@.len() ==> (#[trigger] r@[k])@ == value_keywords()[k],
{
    proof {
        reveal_strlit("for");
        reveal_strlit("in");
        reveal_strlit("if");
        reveal_strlit("else");
        reveal_strlit("endif");
        reveal_strlit("endfor");
        reveal_strlit("dynamic");
        reveal_strlit("content");
        reveal_strlit("each");
        reveal_strlit("self");
        reveal_strlit("var");
        reveal_strlit("local");
        reveal_strlit("count");
        reveal_strlit("path");
        lemma_ascii_literal("for");
        lemma_ascii_literal("in");
        lemma_ascii_literal("if");
        lemma_ascii_literal("else");
        lemma_ascii_literal("endif");
        lemma_ascii_literal("endfor");
        lemma_ascii_literal("dynamic");
        lemma_ascii_literal("content");
        lemma_ascii_literal("each");
        lemma_ascii_literal("self");
        lemma_ascii_literal("var");
        lemma_ascii_literal("local");
        lemma_ascii_literal("count");
        lemma_ascii_literal("path");
    }
    let v = vec![
        "for".as_bytes(),
        "in".as_bytes(),
        "if".as_bytes(),
        "else".as_bytes(),
        "endif".as_bytes(),
        "endfor".as_bytes(),
        "dynamic".as_bytes(),
        "content".as_bytes(),
        "each".as_bytes(),
        "self".as_bytes(),
        "var".as_bytes(),
        "local".as_bytes(),
        "count".as_bytes(),
        "path".as_bytes(),
    ];
    v
}

/// The bytes of `true`, `false` and `null`.
pub fn literal_words() -> (r: (&'static [u8], &'static [u8], &'static [u8]))
    ensures
        r.0@ == ascii("true"@),
        r.1@ == ascii("false"@),
        r.2@ == ascii("null"@),
{
    proof {
        reveal_strlit("true");
        reveal_strlit("false");
        reveal_strlit("null");
        lemma_ascii_literal("true");
        lemma_ascii_literal("false");
        lemma_ascii_literal("null");
    }
    ("true".as_bytes(), "false".as_bytes(), "null".as_bytes())
}

} // verus!
