//! Compiling binary literals.
use crate::ast::{BinKind, BinSegment, BinUnit};
use crate::gen::{
    binary_literal, binary_literal_body, literal_segment, literal_segment_body,
    literal_segments_from, segment_size,
};
use crate::literal::const_fold_binary_literal;
use crate::op::{Const, Op};
use crate::state::Compiler;
use vstd::prelude::*;
use vstd::string::*;

verus! {

impl Compiler {
    /// Compile a binary literal.
    pub fn compile_binary_literal(&mut self, segs: &Vec<BinSegment>)
        ensures
            final(self)@ == binary_literal(segs@, old(self)@),
        decreases segs@, 0nat,
    {
        proof {
            reveal(binary_literal_body);
            assert(binary_literal(segs@, self@) == binary_literal_body(segs@, self@));
        }
        let constant: Option<(Vec<u8>, u64)> = const_fold_binary_literal(&self.world().names, segs);
        match constant {
            Some((bytes, bit_len)) => self.push_const(Const::Binary { bytes, bit_len }),
            None => {
                let mut i: usize = 0;
                let ghost goal = literal_segments_from(segs@, 0, self@);
                while i < segs.len()
                    invariant
                        i <= segs.len(),
                        goal == literal_segments_from(segs@, i as nat, self@),
                    decreases segs.len() - i,
                {
                    self.compile_bin_segment_value(&segs[i]);
                    i = i + 1;
                }
                if segs.len() > 1 {
                    self.emit_arg(Op::BinConcatN, segs.len() as i32);
                }
            },
        }
    }

    /// Compile one segment of a binary literal to a piece of a binary.
    pub fn compile_bin_segment_value(&mut self, seg: &BinSegment)
        ensures
            final(self)@ == literal_segment(*seg, old(self)@),
        decreases *seg, 1nat,
    {
        proof {
            reveal(literal_segment_body);
            assert(literal_segment(*seg, self@) == literal_segment_body(*seg, self@));
        }
        self.compile_expr(&seg.value);
        self.misfit(&seg.value_faults);
        match seg.kind {
            BinKind::Int => {
                self.emit_seg_size_bits(seg, 8);
                self.emit(Op::BinFromInt);
            },
            BinKind::Binary => {
                if seg.size.is_some() {
                    self.emit_seg_size_bits(seg, 0);
                    self.emit(Op::BinTake);
                }
            },
            BinKind::Utf8 => self.emit(Op::BinFromString),
        }
    }

    /// Push the width of a segment in bits.
    pub fn emit_seg_size_bits(&mut self, seg: &BinSegment, default: i64)
        ensures
            final(self)@ == segment_size(*seg, default, old(self)@),
        decreases *seg, 0nat,
    {
        match &seg.size {
            None => self.push_int(default),
            Some(e) => {
                self.compile_expr(e);
                self.misfit(&seg.size_faults);
                if seg.unit == BinUnit::Bytes {
                    self.push_int(8);
                    self.emit(Op::Mul);
                }
            },
        }
    }
}

} // verus!
