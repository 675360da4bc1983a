use vstd::prelude::*;

verus! {

/// The inline elements of a document tree that carry text; the rest are `Other`.
pub enum Inline {
    Str(String),
    Space,
    SoftBreak,
    LineBreak,
    Other,
}

/// The block elements of a document tree that carry text; the rest are `Other`.
pub enum Block {
    Para(Vec<Inline>),
    Plain(Vec<Inline>),
    LineBlock(Vec<Vec<Inline>>),
    RawBlock(String),
    BlockQuote(Vec<Block>),
    Other,
}

/// The text of one inline element: a space or a line break as such, other
/// non-text elements as nothing.
pub open spec fn inline_text(i: Inline) -> Seq<char> {
    match i {
        Inline::Str(s) => s@,
        Inline::Space => " "@,
        Inline::SoftBreak => "\n"@,
        Inline::LineBreak => "\n"@,
        Inline::Other => Seq::empty(),
    }
}

/// The texts of a run of inline elements, one after another.
pub open spec fn inlines_text(s: Seq<Inline>) -> Seq<char>
    decreases s.len(),
{
    if s.len() == 0 {
        Seq::empty()
    } else {
        inlines_text(s.drop_last()) + inline_text(s.last())
    }
}

/// The lines of a line block, each followed by a line break.
pub open spec fn lines_text(s: Seq<Vec<Inline>>) -> Seq<char>
    decreases s.len(),
{
    if s.len() == 0 {
        Seq::empty()
    } else {
        lines_text(s.drop_last()) + inlines_text(s.last()@) + "\n"@
    }
}

/// The text of one block element.
pub open spec fn block_text(b: Block) -> Seq<char>
    decreases b, 1nat, 0nat,
{
    match b {
        Block::Para(i) => inlines_text(i@),
        Block::Plain(i) => inlines_text(i@),
        Block::LineBlock(l) => lines_text(l@),
        Block::RawBlock(s) => s@,
        Block::BlockQuote(_) => quote_text(b, 0),
        Block::Other => Seq::empty(),
    }
}

/// The blocks of a quotation from the `i`-th on, each followed by a line break.
pub open spec fn quote_text(b: Block, i: int) -> Seq<char>
    decreases b, 0nat, (if b is BlockQuote {
        b->BlockQuote_0.len() - i
    } else {
        0
    }) as nat,
{
    if b is BlockQuote && 0 <= i < b->BlockQuote_0.len() {
        block_text(b->BlockQuote_0[i]) + "\n"@ + quote_text(b, i + 1)
    } else {
        Seq::empty()
    }
}

/// The texts of a run of blocks, one after another.
pub open spec fn blocks_text(s: Seq<Block>) -> Seq<char>
    decreases s.len(),
{
    if s.len() == 0 {
        Seq::empty()
    } else {
        blocks_text(s.drop_last()) + block_text(s.last())
    }
}

/// The text of one inline element.
pub fn inline_to_text(i: &Inline) -> (r: String)
    ensures
        r@ == inline_text(*i),
{
    match i {
        Inline::Str(s) => s.clone(),
        Inline::Space => " ".to_string(),
        Inline::SoftBreak => "\n".to_string(),
        Inline::LineBreak => "\n".to_string(),
        Inline::Other => String::new(),
    }
}

/// The text of a run of inline elements.
pub fn inlines_to_text(s: &Vec<Inline>) -> (r: String)
    ensures
        r@ == inlines_text(s@),
{
    let mut out = String::new();
    let mut i: usize = 0;
    while i < s.len()
        invariant
            i <= s@.len(),
            out@ == inlines_text(s@.subrange(0, i as int)),
        decreases s@.len() - i,
    {
        let t = inline_to_text(&s[i]);
        out.append(t.as_str());
        assert(s@.subrange(0, i + 1).drop_last() =~= s@.subrange(0, i as int));
        i = i + 1;
    }
    assert(s@.subrange(0, i as int) =~= s@);
    out
}

/// The text of one block element.
pub fn block_to_text(b: &Block) -> (r: String)
    ensures
        r@ == block_text(*b),
    decreases b,
{
    match b {
        Block::Para(i) => inlines_to_text(i),
        Block::Plain(i) => inlines_to_text(i),
        Block::LineBlock(l) => {
            let mut out = String::new();
            let mut k: usize = 0;
            while k < l.len()
                invariant
                    k <= l@.len(),
                    out@ == lines_text(l@.subrange(0, k as int)),
                decreases l@.len() - k,
            {
                let t = inlines_to_text(&l[k]);
                out.append(t.as_str());
                out.append("\n");
                assert(l@.subrange(0, k + 1).drop_last() =~= l@.subrange(0, k as int));
                k = k + 1;
            }
            assert(l@.subrange(0, k as int) =~= l@);
            out
        },
        Block::RawBlock(s) => s.clone(),
        Block::BlockQuote(bs) => {
            let mut out = String::new();
            let mut k: usize = 0;
            while k < bs.len()
                invariant
                    *b is BlockQuote,
                    bs == b->BlockQuote_0,
                    k <= bs@.len(),
                    out@ + quote_text(*b, k as int) == quote_text(*b, 0),
                decreases bs@.len() - k,
            {
                assert(decreases_to!(*b => bs[k as int]));
                let t = block_to_text(&bs[k]);
                let ghost prev = out@;
                out.append(t.as_str());
                out.append("\n");
                assert(out@ + quote_text(*b, k + 1) =~= prev + (t@ + "\n"@ + quote_text(
                    *b,
                    k + 1,
                )));
                k = k + 1;
            }
            assert(out@ + quote_text(*b, k as int) =~= out@);
            out
        },
        Block::Other => String::new(),
    }
}

/// The text of a run of blocks.
pub fn blocks_to_text(s: &Vec<Block>) -> (r: String)
    ensures
        r@ == blocks_text(s@),
{
    let mut out = String::new();
    let mut i: usize = 0;
    while i < s.len()
        invariant
            i <= s@.len(),
            out@ == blocks_text(s@.subrange(0, i as int)),
        decreases s@.len() - i,
    {
        let t = block_to_text(&s[i]);
        out.append(t.as_str());
        assert(s@.subrange(0, i + 1).drop_last() =~= s@.subrange(0, i as int));
        i = i + 1;
    }
    assert(s@.subrange(0, i as int) =~= s@);
    out
}

} // verus!
