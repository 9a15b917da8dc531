use vstd::prelude::*;
use vstd::slice::{slice_subrange, slice_to_vec};
use crate::error::Asn1Error;

verus! {

/// The tag class of a block: the top two bits of its identifier octet.
#[derive(Debug, Clone, Copy, PartialEq, Eq, Structural)]
pub enum Class {
    Universal,
    Application,
    ContextSpecific,
    Private,
}

/// One tag-length-value element of a DER stream, with its content octets.
#[derive(Debug, PartialEq, Eq)]
pub enum Block {
    /// Universal primitive tag 2: the content is a two's-complement number.
    Integer(Vec<u8>),
    /// Universal constructed tag 16: the content is a run of blocks.
    Sequence(Vec<u8>),
    /// Any other identifier octet, with its content.
    Other(u8, Vec<u8>),
}

/// What a block stands for, with its content as a sequence of octets.
pub enum BlockModel {
    Integer(Seq<u8>),
    Sequence(Seq<u8>),
    Other(u8, Seq<u8>),
}

impl View for Block {
    type V = BlockModel;

    open spec fn view(&self) -> BlockModel {
        match self {
            Block::Integer(c) => BlockModel::Integer(c@),
            Block::Sequence(c) => BlockModel::Sequence(c@),
            Block::Other(t, c) => BlockModel::Other(*t, c@),
        }
    }
}

/// The models of a run of blocks.
pub open spec fn models(bs: Seq<Block>) -> Seq<BlockModel> {
    bs.map_values(|b: Block| b@)
}

/// The class that an identifier octet names.
pub open spec fn class_of_tag(tag: u8) -> Class {
    if tag < 0x40 {
        Class::Universal
    } else if tag < 0x80 {
        Class::Application
    } else if tag < 0xc0 {
        Class::ContextSpecific
    } else {
        Class::Private
    }
}

/// The class of a block.
pub open spec fn block_class(b: BlockModel) -> Class {
    match b {
        BlockModel::Other(t, _) => class_of_tag(t),
        _ => Class::Universal,
    }
}

/// The block that an identifier octet and its content make.
pub open spec fn block_of(tag: u8, body: Seq<u8>) -> BlockModel {
    if tag == 0x02 {
        BlockModel::Integer(body)
    } else if tag == 0x30 {
        BlockModel::Sequence(body)
    } else {
        BlockModel::Other(tag, body)
    }
}

/// The blocks that `b` holds, one after the other, each an identifier octet with a
/// low tag number, a short-form length octet and that many content octets;
/// `None` where `b` is not such a run.
pub open spec fn parse_blocks_spec(b: Seq<u8>) -> Option<Seq<BlockModel>>
    decreases b.len(),
{
    if b.len() == 0 {
        Some(Seq::empty())
    } else if b.len() < 2 || b[0] % 32 == 31 || b[1] >= 0x80 || b.len() < 2 + b[1] {
        None
    } else {
        let end = 2 + b[1] as int;
        match parse_blocks_spec(b.subrange(end, b.len() as int)) {
            Some(rest) => Some(seq![block_of(b[0], b.subrange(2, end))] + rest),
            None => None,
        }
    }
}

/// The tag-length-value octets of one block with a low tag number and short content.
pub open spec fn tlv(tag: u8, content: Seq<u8>) -> Seq<u8> {
    seq![tag, content.len() as u8] + content
}

/// A lone block with fewer than 128 content octets reads back as itself.
pub proof fn lemma_parse_single(tag: u8, content: Seq<u8>)
    requires
        tag % 32 != 31,
        content.len() < 128,
    ensures
        parse_blocks_spec(tlv(tag, content)) == Some(seq![block_of(tag, content)]),
{
    let b = tlv(tag, content);
    let end = 2 + content.len() as int;
    assert(b.subrange(end, b.len() as int) =~= Seq::<u8>::empty());
    assert(b.subrange(2, end) =~= content);
    assert(parse_blocks_spec(Seq::<u8>::empty()) == Some(Seq::<BlockModel>::empty()));
    assert(seq![block_of(tag, content)] + Seq::<BlockModel>::empty() =~= seq![
        block_of(tag, content),
    ]);
}

impl Block {
    /// The tag class of this block.
    pub fn class(&self) -> (r: Class)
        ensures
            r == block_class(self@),
    {
        match self {
            Block::Other(t, _) => {
                if *t < 0x40 {
                    Class::Universal
                } else if *t < 0x80 {
                    Class::Application
                } else if *t < 0xc0 {
                    Class::ContextSpecific
                } else {
                    Class::Private
                }
            },
            _ => Class::Universal,
        }
    }
}

/// Splits a DER byte stream into its top-level blocks.
pub fn parse_blocks(bytes: &[u8]) -> (r: Result<Vec<Block>, Asn1Error>)
    ensures
        match r {
            Ok(bs) => parse_blocks_spec(bytes@) == Some(models(bs@)),
            Err(e) => parse_blocks_spec(bytes@) is None && e == Asn1Error::MalformedBlock,
        },
{
    let mut out: Vec<Block> = Vec::new();
    let mut pos: usize = 0;
    let n = bytes.len();
    assert(bytes@.subrange(0, n as int) =~= bytes@);
    proof {
        match parse_blocks_spec(bytes@) {
            Some(rest) => assert(models(out@) + rest =~= rest),
            None => {},
        }
    }
    while pos < n
        invariant
            n == bytes@.len(),
            pos <= n,
            parse_blocks_spec(bytes@) == match parse_blocks_spec(bytes@.subrange(pos as int, n as int)) {
                Some(rest) => Some(models(out@) + rest),
                None => None,
            },
        decreases n - pos,
    {
        let ghost s = bytes@.subrange(pos as int, n as int);
        if n - pos < 2 || bytes[pos] % 32 == 31 || bytes[pos + 1] >= 0x80 {
            return Err(Asn1Error::MalformedBlock);
        }
        let tag = bytes[pos];
        let len = bytes[pos + 1] as usize;
        if n - pos - 2 < len {
            return Err(Asn1Error::MalformedBlock);
        }
        let start = pos + 2;
        let end = start + len;
        let body = slice_to_vec(slice_subrange(bytes, start, end));
        let block = if tag == 0x02 {
            Block::Integer(body)
        } else if tag == 0x30 {
            Block::Sequence(body)
        } else {
            Block::Other(tag, body)
        };
        proof {
            assert(s.subrange(2 + len, s.len() as int) =~= bytes@.subrange(end as int, n as int));
            assert(s.subrange(2, 2 + len) =~= body@);
            assert(block@ == block_of(tag, body@));
            assert(models(out@.push(block)) =~= models(out@).push(block@));
            match parse_blocks_spec(bytes@.subrange(end as int, n as int)) {
                Some(rest) => {
                    assert(models(out@) + (seq![block@] + rest) =~= models(out@).push(block@)
                        + rest);
                },
                None => {},
            }
        }
        out.push(block);
        pos = end;
    }
    assert(bytes@.subrange(n as int, n as int) =~= Seq::<u8>::empty());
    assert(models(out@) + Seq::<BlockModel>::empty() =~= models(out@));
    Ok(out)
}

} // verus!
