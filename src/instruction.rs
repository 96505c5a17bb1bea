//! The two commands and their wire form: a tag byte, then the payload.
use crate::codec::{decode_payload, enc_payload, encode_payload, lemma_parse_payload, parse_payload, payload_fits, PayloadModel, ReviewPayload};
use crate::error::ReviewError;
use vstd::prelude::*;

verus! {

/// A decoded command: both carry the same payload.
pub enum ReviewInstruction {
    AddReview(ReviewPayload),
    UpdateReview(ReviewPayload),
}

/// The value of a command.
pub ghost enum InstructionModel {
    AddReview(PayloadModel),
    UpdateReview(PayloadModel),
}

impl InstructionModel {
    pub open spec fn payload(self) -> PayloadModel {
        match self {
            InstructionModel::AddReview(p) => p,
            InstructionModel::UpdateReview(p) => p,
        }
    }

    pub open spec fn tag(self) -> u8 {
        match self {
            InstructionModel::AddReview(_) => 0,
            InstructionModel::UpdateReview(_) => 1,
        }
    }
}

impl View for ReviewInstruction {
    type V = InstructionModel;

    open spec fn view(&self) -> InstructionModel {
        match self {
            ReviewInstruction::AddReview(p) => InstructionModel::AddReview(p@),
            ReviewInstruction::UpdateReview(p) => InstructionModel::UpdateReview(p@),
        }
    }
}

/// A command on the wire: the tag, then the payload, with nothing after it.
pub open spec fn enc_instruction(c: InstructionModel) -> Seq<u8> {
    seq![c.tag()] + enc_payload(c.payload())
}

/// The command that `b` holds: tag 0 adds, tag 1 updates, and the payload
/// must take up every byte after the tag.
pub open spec fn parse_instruction(b: Seq<u8>) -> Option<InstructionModel> {
    if b.len() == 0 {
        None
    } else {
        match parse_payload(b.drop_first()) {
            Some((p, rest)) => if rest.len() != 0 {
                None
            } else if b[0] == 0 {
                Some(InstructionModel::AddReview(p))
            } else if b[0] == 1 {
                Some(InstructionModel::UpdateReview(p))
            } else {
                None
            },
            None => None,
        }
    }
}

/// Decoding an encoded command gives the command back, for both tags.
pub proof fn lemma_instruction_round_trip(c: InstructionModel)
    requires
        payload_fits(c.payload()),
    ensures
        parse_instruction(enc_instruction(c)) == Some(c),
{
    let b = enc_instruction(c);
    lemma_parse_payload(c.payload(), Seq::empty());
    assert(b.drop_first() =~= enc_payload(c.payload()) + Seq::<u8>::empty());
}

impl ReviewInstruction {
    /// Decodes a command; any malformed input gives `DecodeError`.
    pub fn unpack(input: &[u8]) -> (r: Result<ReviewInstruction, ReviewError>)
        ensures
            match r {
                Ok(c) => parse_instruction(input@) == Some(c@),
                Err(e) => parse_instruction(input@) is None && e == ReviewError::DecodeError,
            },
    {
        if input.len() == 0 {
            return Err(ReviewError::DecodeError);
        }
        let variant = input[0];
        let body = vstd::slice::slice_subrange(input, 1, input.len());
        assert(body@ =~= input@.drop_first());
        match decode_payload(body) {
            None => Err(ReviewError::DecodeError),
            Some((p, rest)) => {
                if rest.len() != 0 {
                    Err(ReviewError::DecodeError)
                } else if variant == 0 {
                    Ok(ReviewInstruction::AddReview(p))
                } else if variant == 1 {
                    Ok(ReviewInstruction::UpdateReview(p))
                } else {
                    Err(ReviewError::DecodeError)
                }
            },
        }
    }

    /// Encodes a command.
    pub fn pack(&self) -> (r: Vec<u8>)
        requires
            payload_fits(self@.payload()),
        ensures
            r@ == enc_instruction(self@),
    {
        let mut out: Vec<u8> = Vec::new();
        let p = match self {
            ReviewInstruction::AddReview(p) => {
                out.push(0u8);
                p
            },
            ReviewInstruction::UpdateReview(p) => {
                out.push(1u8);
                p
            },
        };
        encode_payload(p, &mut out);
        out
    }

    /// The payload the command carries.
    pub fn payload(&self) -> (r: &ReviewPayload)
        ensures
            r@ == self@.payload(),
    {
        match self {
            ReviewInstruction::AddReview(p) => p,
            ReviewInstruction::UpdateReview(p) => p,
        }
    }
}

} // verus!
