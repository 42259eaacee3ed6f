//! NOTA documents as the ledger reads them: blocks, and the records that blocks
//! write down.
use vstd::prelude::*;
use vstd::slice::slice_subrange;

use crate::model::Duplicate;

verus! {

/// Why a NOTA block does not say what was expected of it.
#[derive(Debug, PartialEq, Eq)]
pub enum NotaDecodeError {
    /// The text is no NOTA document, or a block holds no value of its kind.
    Syntax { detail: String },
    /// A block is not enclosed in parentheses.
    ExpectedParenthesis { record_name: String },
    /// A record does not begin with an atom.
    ExpectedAtom { record_name: String },
    /// A record begins with another name.
    UnknownVariant { enum_name: String, variant: String },
    /// A record has another number of fields.
    ExpectedRootCount { record_name: String, expected: usize, found: usize },
}

/// The model of a [`NotaDecodeError`].
#[verifier::ext_equal]
pub enum NotaFault {
    Syntax { detail: Seq<char> },
    ExpectedParenthesis { record_name: Seq<char> },
    ExpectedAtom { record_name: Seq<char> },
    UnknownVariant { enum_name: Seq<char>, variant: Seq<char> },
    ExpectedRootCount { record_name: Seq<char>, expected: usize, found: usize },
}

impl View for NotaDecodeError {
    type V = NotaFault;

    open spec fn view(&self) -> NotaFault {
        match self {
            NotaDecodeError::Syntax { detail } => NotaFault::Syntax { detail: detail@ },
            NotaDecodeError::ExpectedParenthesis { record_name } => {
                NotaFault::ExpectedParenthesis { record_name: record_name@ }
            },
            NotaDecodeError::ExpectedAtom { record_name } => {
                NotaFault::ExpectedAtom { record_name: record_name@ }
            },
            NotaDecodeError::UnknownVariant { enum_name, variant } => {
                NotaFault::UnknownVariant { enum_name: enum_name@, variant: variant@ }
            },
            NotaDecodeError::ExpectedRootCount { record_name, expected, found } => {
                NotaFault::ExpectedRootCount {
                    record_name: record_name@,
                    expected: *expected,
                    found: *found,
                }
            },
        }
    }
}

impl Duplicate for NotaDecodeError {
    fn duplicate(&self) -> (copy: Self) {
        match self {
            NotaDecodeError::Syntax { detail } => NotaDecodeError::Syntax {
                detail: detail.clone(),
            },
            NotaDecodeError::ExpectedParenthesis { record_name } => {
                NotaDecodeError::ExpectedParenthesis { record_name: record_name.clone() }
            },
            NotaDecodeError::ExpectedAtom { record_name } => NotaDecodeError::ExpectedAtom {
                record_name: record_name.clone(),
            },
            NotaDecodeError::UnknownVariant { enum_name, variant } => {
                NotaDecodeError::UnknownVariant {
                    enum_name: enum_name.clone(),
                    variant: variant.clone(),
                }
            },
            NotaDecodeError::ExpectedRootCount { record_name, expected, found } => {
                NotaDecodeError::ExpectedRootCount {
                    record_name: record_name.clone(),
                    expected: *expected,
                    found: *found,
                }
            },
        }
    }
}

/// One block of a NOTA document, with what the notation makes of it.
#[derive(Debug, PartialEq, Eq)]
pub struct Block {
    /// The blocks inside, where this one is a pair of parentheses.
    pub children: Option<Vec<Block>>,
    /// The bare text, where this block is an atom.
    pub atom: Option<String>,
    /// What the block says read as a text.
    pub text: Result<String, NotaDecodeError>,
    /// What the block says read as a truth value.
    pub truth: Result<bool, NotaDecodeError>,
}

/// What a block says read as a text.
pub open spec fn text_of(block: Block) -> Result<Seq<char>, NotaFault> {
    match block.text {
        Ok(text) => Ok(text@),
        Err(error) => Err(error@),
    }
}

/// What a block says read as a truth value.
pub open spec fn truth_of(block: Block) -> Result<bool, NotaFault> {
    match block.truth {
        Ok(truth) => Ok(truth),
        Err(error) => Err(error@),
    }
}

/// The fields of a record: a pair of parentheses whose first block is the name of
/// the record and whose other blocks are its fields.
pub open spec fn fields_of(block: Block, head: Seq<char>) -> Result<Seq<Block>, NotaFault> {
    match block.children {
        None => Err(NotaFault::ExpectedParenthesis { record_name: head }),
        Some(children) => if children@.len() == 0 {
            Err(NotaFault::ExpectedAtom { record_name: head })
        } else {
            match children@[0].atom {
                None => Err(NotaFault::ExpectedAtom { record_name: head }),
                Some(name) => if name@ == head {
                    Ok(children@.skip(1))
                } else {
                    Err(NotaFault::UnknownVariant { enum_name: head, variant: name@ })
                },
            }
        },
    }
}

/// The fields of a record that has `count` of them.
pub open spec fn counted_fields(
    block: Block,
    head: Seq<char>,
    count: usize,
) -> Result<Seq<Block>, NotaFault> {
    match fields_of(block, head) {
        Ok(fields) => if fields.len() == count {
            Ok(fields)
        } else {
            Err(
                NotaFault::ExpectedRootCount {
                    record_name: head,
                    expected: count,
                    found: fields.len() as usize,
                },
            )
        },
        Err(fault) => Err(fault),
    }
}

/// The text in a record of one field.
pub open spec fn named_text_of(block: Block, head: Seq<char>) -> Result<Seq<char>, NotaFault> {
    match counted_fields(block, head, 1) {
        Ok(fields) => text_of(fields[0]),
        Err(fault) => Err(fault),
    }
}

/// The truth value in a record of one field.
pub open spec fn named_truth_of(block: Block, head: Seq<char>) -> Result<bool, NotaFault> {
    match counted_fields(block, head, 1) {
        Ok(fields) => truth_of(fields[0]),
        Err(fault) => Err(fault),
    }
}

/// How a block is read as a record of `count` fields: by its parentheses, then the atom
/// that it begins with, then the name that this is, then the number of its fields.
/// The first that is not as it should be is the fault, and names what was expected.
pub proof fn lemma_record_read(block: Block, head: Seq<char>, count: usize)
    ensures
        ({
            let read = counted_fields(block, head, count);
            &&& block.children is None ==> read == Err::<Seq<Block>, NotaFault>(
                NotaFault::ExpectedParenthesis { record_name: head },
            )
            &&& block.children matches Some(children) ==> {
                &&& children@.len() == 0 || children@[0].atom is None ==> read == Err::<
                    Seq<Block>,
                    NotaFault,
                >(NotaFault::ExpectedAtom { record_name: head })
                &&& children@.len() > 0 && children@[0].atom is Some ==> {
                    let name = children@[0].atom->0@;
                    &&& name != head ==> read == Err::<Seq<Block>, NotaFault>(
                        NotaFault::UnknownVariant { enum_name: head, variant: name },
                    )
                    &&& name == head && children@.len() - 1 != count ==> read == Err::<
                        Seq<Block>,
                        NotaFault,
                    >(
                        NotaFault::ExpectedRootCount {
                            record_name: head,
                            expected: count,
                            found: (children@.len() - 1) as usize,
                        },
                    )
                    &&& name == head && children@.len() - 1 == count ==> {
                        &&& read matches Ok(fields)
                        &&& fields.len() == count
                        &&& forall|i: int|
                            0 <= i < count ==> #[trigger] fields[i] == children@[i + 1]
                    }
                }
            }
        }),
{
}

/// Whether a result is what the model says: the same value, or the same fault.
pub open spec fn says<T: View>(
    result: Result<T, NotaDecodeError>,
    expected: Result<T::V, NotaFault>,
) -> bool {
    match result {
        Ok(value) => expected == Ok::<T::V, NotaFault>(value@),
        Err(error) => expected == Err::<T::V, NotaFault>(error@),
    }
}

/// Reads a block as a text.
pub fn read_text(block: &Block) -> (result: Result<String, NotaDecodeError>)
    ensures
        says(result, text_of(*block)),
{
    match &block.text {
        Ok(text) => Ok(text.clone()),
        Err(error) => Err(error.duplicate()),
    }
}

/// Reads a block as a truth value.
pub fn read_truth(block: &Block) -> (result: Result<bool, NotaDecodeError>)
    ensures
        says(result, truth_of(*block)),
{
    match &block.truth {
        Ok(truth) => Ok(*truth),
        Err(error) => Err(error.duplicate()),
    }
}

/// Reads a block as a record, and hands out its fields.
pub fn expect_record_body<'block>(block: &'block Block, head: &str) -> (result: Result<
    &'block [Block],
    NotaDecodeError,
>)
    ensures
        match result {
            Ok(fields) => fields_of(*block, head@) == Ok::<Seq<Block>, NotaFault>(fields@),
            Err(error) => fields_of(*block, head@) == Err::<Seq<Block>, NotaFault>(error@),
        },
{
    let children = match &block.children {
        Some(children) => children,
        None => return Err(NotaDecodeError::ExpectedParenthesis { record_name: head.to_owned() }),
    };
    if children.len() == 0 {
        return Err(NotaDecodeError::ExpectedAtom { record_name: head.to_owned() });
    }
    match &children[0].atom {
        None => Err(NotaDecodeError::ExpectedAtom { record_name: head.to_owned() }),
        Some(name) => {
            let expected: String = head.to_owned();
            if *name != expected {
                return Err(
                    NotaDecodeError::UnknownVariant { enum_name: expected, variant: name.clone() },
                );
            }
            let fields = slice_subrange(children.as_slice(), 1, children.len());
            assert(fields@ =~= children@.skip(1));
            Ok(fields)
        },
    }
}

/// Reads a block as a record of `count` fields, and hands them out.
pub fn expect_fields<'block>(block: &'block Block, head: &str, count: usize) -> (result: Result<
    &'block [Block],
    NotaDecodeError,
>)
    ensures
        match result {
            Ok(fields) => counted_fields(*block, head@, count) == Ok::<Seq<Block>, NotaFault>(
                fields@,
            ) && fields@.len() == count,
            Err(error) => counted_fields(*block, head@, count) == Err::<Seq<Block>, NotaFault>(
                error@,
            ),
        },
{
    let fields = expect_record_body(block, head)?;
    if fields.len() != count {
        return Err(
            NotaDecodeError::ExpectedRootCount {
                record_name: head.to_owned(),
                expected: count,
                found: fields.len(),
            },
        );
    }
    Ok(fields)
}

/// Reads a block as a record of one text.
pub fn decode_named_string(block: &Block, head: &str) -> (result: Result<String, NotaDecodeError>)
    ensures
        says(result, named_text_of(*block, head@)),
{
    let fields = expect_fields(block, head, 1)?;
    read_text(&fields[0])
}

/// Reads a block as a record of one truth value.
pub fn decode_named_truth(block: &Block, head: &str) -> (result: Result<bool, NotaDecodeError>)
    ensures
        says(result, named_truth_of(*block, head@)),
{
    let fields = expect_fields(block, head, 1)?;
    read_truth(&fields[0])
}

} // verus!
