//! The loader: turns program text into the function table.
//!
//! Lines of the shape `fn <name>:` open a new function body, ended by the
//! next header or the end of the text.  Bodies are numbered in order of
//! appearance from id 1; id 0 is the built-in print function, and the
//! entry function is always id 1.  A text with no headers is one single
//! entry body; when headers exist, every body belongs to a header, so
//! instructions before the first header belong to none and are dropped.
//! Blank lines are filtered out here, so jump targets and instruction
//! indices count non-blank lines only.

use vstd::prelude::*;

use crate::instr::{
    body_view, lemma_body_view_push, parse_instr, spec_parse_instr, FunV, Function, Instr, InstrV,
    NativeOp, VmErr,
};
use crate::text::{lines_view, spec_lines, split_lines, trim, trim_slice};

verus! {

/// A function-header line (already trimmed): it starts with `fn` and
/// ends with a colon.
pub open spec fn is_header(t: Seq<u8>) -> bool {
    t.len() >= 3 && t[0] == 'f' as u8 && t[1] == 'n' as u8 && t.last() == ':' as u8
}

/// Executable mirror of [`is_header`].
pub fn line_is_header(t: &[u8]) -> (r: bool)
    ensures
        r == is_header(t@),
{
    t.len() >= 3 && t[0] == 'f' as u8 && t[1] == 'n' as u8 && t[t.len() - 1] == ':' as u8
}

/// Loader state while scanning lines: whether a header has been seen,
/// the body being collected, and the bodies already closed.
#[verifier::ext_equal]
pub struct LoadSt {
    pub saw_header: bool,
    pub cur: Seq<InstrV>,
    pub done: Seq<Seq<InstrV>>,
}

/// One trimmed line's effect on the loader state.  Blank lines are
/// skipped; a header closes the current body; any other line must parse
/// as an instruction.
pub open spec fn load_line(st: LoadSt, t: Seq<u8>) -> Result<LoadSt, VmErr> {
    if t.len() == 0 {
        Ok(st)
    } else if is_header(t) {
        Ok(
            LoadSt {
                saw_header: true,
                cur: Seq::empty(),
                done: if st.saw_header {
                    st.done.push(st.cur)
                } else {
                    st.done
                },
            },
        )
    } else {
        match spec_parse_instr(t) {
            Ok(i) => Ok(LoadSt { cur: st.cur.push(i), ..st }),
            Err(e) => Err(e),
        }
    }
}

/// Folds the loader over the raw lines from position `i` on, trimming
/// each.
pub open spec fn load_lines(lines: Seq<Seq<u8>>, i: int, st: LoadSt) -> Result<LoadSt, VmErr>
    decreases lines.len() - i,
{
    if i < 0 || i >= lines.len() {
        Ok(st)
    } else {
        match load_line(st, trim(lines[i])) {
            Ok(st2) => load_lines(lines, i + 1, st2),
            Err(e) => Err(e),
        }
    }
}

/// The loader state before any line has been read.
pub open spec fn load_init() -> LoadSt {
    LoadSt { saw_header: false, cur: Seq::empty(), done: Seq::empty() }
}

/// The bodies of a finished scan: with headers, the headered bodies;
/// with none, the whole text as the single entry body.
pub open spec fn finish_bodies(st: LoadSt) -> Seq<Seq<InstrV>> {
    if st.saw_header {
        st.done.push(st.cur)
    } else {
        seq![st.cur]
    }
}

/// Source-function entries for a sequence of bodies.
pub open spec fn bodies_to_funs(d: Seq<Seq<InstrV>>) -> Seq<FunV> {
    d.map_values(|b: Seq<InstrV>| FunV::Source(b))
}

pub proof fn lemma_bodies_to_funs_push(d: Seq<Seq<InstrV>>, b: Seq<InstrV>)
    ensures
        bodies_to_funs(d.push(b)) == bodies_to_funs(d).push(FunV::Source(b)),
{
    assert(bodies_to_funs(d.push(b)) =~= bodies_to_funs(d).push(FunV::Source(b)));
}

/// The function table denoted by a program text: the native print
/// function at id 0, then the program's bodies at ids 1 upward.
pub open spec fn spec_load(src: Seq<u8>) -> Result<Seq<FunV>, VmErr> {
    match load_lines(spec_lines(src), 0, load_init()) {
        Ok(st) => Ok(seq![FunV::Native(NativeOp::Print)] + bodies_to_funs(finish_bodies(st))),
        Err(e) => Err(e),
    }
}

/// The mathematical shape of a function table.
pub open spec fn table_view(t: Seq<Function>) -> Seq<FunV> {
    t.map_values(|f: Function| f@)
}

pub proof fn lemma_table_view_push(t: Seq<Function>, f: Function)
    ensures
        table_view(t.push(f)) == table_view(t).push(f@),
{
    assert(table_view(t.push(f)) =~= table_view(t).push(f@));
}

/// Relates a built table to its mathematical shape.
pub open spec fn load_res_view(r: Result<Vec<Function>, VmErr>) -> Result<Seq<FunV>, VmErr> {
    match r {
        Ok(t) => Ok(table_view(t@)),
        Err(e) => Err(e),
    }
}

/// Every loaded table has the native print function at id 0 and at
/// least one source body, the entry function, at id 1.
pub proof fn lemma_load_shape(src: Seq<u8>, tbl: Seq<FunV>)
    requires
        spec_load(src) == Ok::<Seq<FunV>, VmErr>(tbl),
    ensures
        tbl.len() >= 2,
        tbl[0] == FunV::Native(NativeOp::Print),
        forall|j: int| 1 <= j < tbl.len() ==> tbl[j] is Source,
{
    let lr = load_lines(spec_lines(src), 0, load_init());
    assert(lr is Ok);
    let st = lr->Ok_0;
    let bodies = finish_bodies(st);
    assert(bodies.len() >= 1);
    assert(tbl == seq![FunV::Native(NativeOp::Print)] + bodies_to_funs(bodies));
    assert forall|j: int| 1 <= j < tbl.len() implies tbl[j] is Source by {
        assert(tbl[j] == bodies_to_funs(bodies)[j - 1]);
        assert(bodies_to_funs(bodies)[j - 1] == FunV::Source(bodies[j - 1]));
    }
}

/// Builds the function table from program text.
pub fn load(src: &[u8]) -> (r: Result<Vec<Function>, VmErr>)
    ensures
        load_res_view(r) == spec_load(src@),
{
    let lines = split_lines(src);
    let ghost linesv: Seq<Seq<u8>> = spec_lines(src@);
    let mut saw_header: bool = false;
    let mut cur: Vec<Instr> = Vec::new();
    let mut done: Vec<Function> = Vec::new();
    let ghost mut st: LoadSt = load_init();
    let mut i: usize = 0;
    proof {
        assert(body_view(cur@) =~= Seq::<InstrV>::empty());
        assert(table_view(done@) =~= Seq::<FunV>::empty());
        assert(bodies_to_funs(st.done) =~= Seq::<FunV>::empty());
    }
    while i < lines.len()
        invariant
            0 <= i <= lines@.len(),
            linesv == spec_lines(src@),
            lines_view(lines@) == linesv,
            load_lines(linesv, 0, load_init()) == load_lines(linesv, i as int, st),
            st.saw_header == saw_header,
            st.cur == body_view(cur@),
            bodies_to_funs(st.done) == table_view(done@),
            !saw_header ==> st.done.len() == 0,
        decreases lines@.len() - i,
    {
        let t = trim_slice(lines[i].as_slice());
        proof {
            assert(lines_view(lines@)[i as int] == lines@[i as int]@);
            assert(t@ == trim(linesv[i as int]));
        }
        if t.len() == 0 {
            proof {
                assert(load_line(st, trim(linesv[i as int])) == Ok::<LoadSt, VmErr>(st));
            }
        } else if line_is_header(t) {
            let ghost st2 = LoadSt {
                saw_header: true,
                cur: Seq::<InstrV>::empty(),
                done: if st.saw_header {
                    st.done.push(st.cur)
                } else {
                    st.done
                },
            };
            proof {
                assert(load_line(st, trim(linesv[i as int])) == Ok::<LoadSt, VmErr>(st2));
            }
            if saw_header {
                proof {
                    lemma_bodies_to_funs_push(st.done, st.cur);
                    lemma_table_view_push(done@, Function::Source(cur));
                }
                done.push(Function::Source(cur));
            }
            cur = Vec::new();
            saw_header = true;
            proof {
                st = st2;
                assert(body_view(cur@) =~= Seq::<InstrV>::empty());
            }
        } else {
            match parse_instr(t) {
                Ok(ins) => {
                    let ghost insv: InstrV = ins@;
                    let ghost st2 = LoadSt { cur: st.cur.push(insv), ..st };
                    proof {
                        assert(load_line(st, trim(linesv[i as int])) == Ok::<LoadSt, VmErr>(st2));
                        lemma_body_view_push(cur@, ins);
                    }
                    cur.push(ins);
                    proof {
                        st = st2;
                    }
                },
                Err(e) => {
                    proof {
                        assert(load_line(st, trim(linesv[i as int])) == Err::<LoadSt, VmErr>(e));
                        assert(load_lines(linesv, i as int, st) == Err::<LoadSt, VmErr>(e));
                    }
                    return Err(e);
                },
            }
        }
        i += 1;
    }
    proof {
        assert(load_lines(linesv, i as int, st) == Ok::<LoadSt, VmErr>(st));
    }
    let ghost donev: Seq<Function> = done@;
    proof {
        lemma_table_view_push(done@, Function::Source(cur));
        if saw_header {
            lemma_bodies_to_funs_push(st.done, st.cur);
        } else {
            assert(st.done =~= Seq::<Seq<InstrV>>::empty());
            assert(bodies_to_funs(st.done) =~= Seq::<FunV>::empty());
            assert(table_view(donev) =~= Seq::<FunV>::empty());
            assert(donev =~= Seq::<Function>::empty());
            assert(bodies_to_funs(finish_bodies(st)) =~= Seq::<FunV>::empty().push(
                FunV::Source(st.cur),
            ));
        }
    }
    done.push(Function::Source(cur));
    let ghost done2: Seq<Function> = done@;
    proof {
        assert(table_view(done2) == bodies_to_funs(finish_bodies(st)));
    }
    let mut table: Vec<Function> = Vec::new();
    table.push(Function::Native(NativeOp::Print));
    table.append(&mut done);
    proof {
        assert(table@ =~= seq![Function::Native(NativeOp::Print)] + done2);
        assert(table_view(table@) =~= seq![FunV::Native(NativeOp::Print)] + table_view(done2));
    }
    Ok(table)
}

} // verus!
