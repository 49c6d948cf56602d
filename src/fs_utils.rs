//! Decisions about input files that need no file system: binary detection on
//! a file's first bytes, and which files take part in a search.

use vstd::prelude::*;

verus! {

/// How many leading bytes decide whether a file is binary.
pub const BINARY_PREFIX: usize = 4096;

/// A NUL byte occurs among the first 4096 bytes.
pub open spec fn has_nul_prefix(b: Seq<u8>) -> bool {
    exists|i: int| 0 <= i < b.len() && i < BINARY_PREFIX && b[i] == 0
}

/// Whether a file that starts with `prefix` is binary.
pub fn is_binary_prefix(prefix: &[u8]) -> (r: bool)
    ensures
        r == has_nul_prefix(prefix@),
{
    let mut i: usize = 0;
    while i < prefix.len() && i < BINARY_PREFIX
        invariant
            i <= prefix@.len(),
            i <= BINARY_PREFIX,
            forall|j: int| 0 <= j < i ==> prefix@[j] != 0,
        decreases prefix@.len() - i,
    {
        if prefix[i] == 0 {
            return true;
        }
        i = i + 1;
    }
    false
}

/// The files of `files` whose flag in `binary` is false, in order.
pub open spec fn text_files(files: Seq<String>, binary: Seq<bool>) -> Seq<String>
    decreases files.len(),
{
    if files.len() == 0 {
        Seq::empty()
    } else {
        let rest = text_files(files.drop_last(), binary);
        if files.len() - 1 < binary.len() && binary[files.len() - 1] {
            rest
        } else {
            rest.push(files.last())
        }
    }
}

/// Drop the files flagged as binary and keep the others in their order.
pub fn keep_text_files(files: &Vec<String>, binary: &Vec<bool>) -> (r: Vec<String>)
    requires
        files@.len() == binary@.len(),
    ensures
        r@ == text_files(files@, binary@),
{
    let mut out: Vec<String> = Vec::new();
    let mut i: usize = 0;
    while i < files.len()
        invariant
            files@.len() == binary@.len(),
            i <= files@.len(),
            out@ == text_files(files@.subrange(0, i as int), binary@),
        decreases files@.len() - i,
    {
        if !binary[i] {
            out.push(files[i].clone());
        }
        assert(files@.subrange(0, i + 1).drop_last() == files@.subrange(0, i as int));
        i = i + 1;
    }
    assert(files@.subrange(0, i as int) == files@);
    out
}

} // verus!

verus! {

/// A file flagged binary never takes part in a search: every kept file is an
/// input whose flag is false, and every such input is kept.
pub proof fn law_binary_files_excluded(files: Seq<String>, binary: Seq<bool>)
    requires
        files.len() == binary.len(),
    ensures
        forall|x: String|
            #[trigger] text_files(files, binary).contains(x) ==> exists|i: int|
                0 <= i < files.len() && !binary[i] && files[i] == x,
        forall|i: int|
            0 <= i < files.len() && !binary[i] ==> text_files(files, binary).contains(
                #[trigger] files[i],
            ),
    decreases files.len(),
{
    if files.len() > 0 {
        let init = files.drop_last();
        let bi = binary.drop_last();
        let n = files.len() - 1;
        law_binary_files_excluded(init, bi);
        lemma_extra_flags(init, binary);
        let rest = text_files(init, bi);
        let t = text_files(files, binary);
        assert(rest == text_files(init, binary));
        assert forall|x: String| t.contains(x) implies exists|i: int|
            0 <= i < files.len() && !binary[i] && files[i] == x by {
            let k = choose|k: int| 0 <= k < t.len() && t[k] == x;
            if k < rest.len() {
                assert(t[k] == rest[k]);
                assert(rest.contains(x));
                let i = choose|i: int| 0 <= i < init.len() && !bi[i] && init[i] == x;
                assert(files[i] == init[i] && binary[i] == bi[i]);
            } else {
                assert(t[k] == files[n]);
                assert(!binary[n]);
            }
        }
        assert forall|i: int| 0 <= i < files.len() && !binary[i] implies t.contains(
            #[trigger] files[i],
        ) by {
            if i < n {
                assert(init[i] == files[i] && bi[i] == binary[i]);
                assert(rest.contains(init[i]));
                let k = choose|k: int| 0 <= k < rest.len() && rest[k] == files[i];
                assert(t[k] == rest[k]);
            } else {
                assert(t[t.len() - 1] == files[n]);
            }
        }
    }
}

/// Flags past the end of the file list do not matter.
proof fn lemma_extra_flags(files: Seq<String>, binary: Seq<bool>)
    requires
        files.len() < binary.len(),
    ensures
        text_files(files, binary) == text_files(files, binary.drop_last()),
    decreases files.len(),
{
    if files.len() > 0 {
        lemma_extra_flags(files.drop_last(), binary);
        lemma_extra_flags(files.drop_last(), binary.drop_last());
        assert(binary.drop_last()[files.len() - 1] == binary[files.len() - 1]);
    }
}

/// How a run reads its expanded inputs.
#[derive(Debug)]
pub enum Dispatch {
    /// The only input is standard input.
    Stdin,
    /// Every file was binary: nothing to search.
    Empty,
    /// One text file, searched on its own.
    Single(String),
    /// Several text files, searched independently and combined in this order.
    Many(Vec<String>),
}

/// Decide how to search the expanded inputs `files`, whose binary flags are
/// `binary`: a lone `"-"` is standard input; otherwise the binary files are
/// dropped and what remains decides.
pub fn dispatch(files: &Vec<String>, binary: &Vec<bool>) -> (r: Dispatch)
    requires
        files@.len() == binary@.len(),
    ensures
        files@.len() == 1 && files@[0]@ == "-"@ ==> r is Stdin,
        !(files@.len() == 1 && files@[0]@ == "-"@) ==> {
            let kept = text_files(files@, binary@);
            &&& kept.len() == 0 ==> r is Empty
            &&& kept.len() == 1 ==> (r matches Dispatch::Single(f) && f == kept[0])
            &&& kept.len() > 1 ==> (r matches Dispatch::Many(v) && v@ == kept)
        },
{
    if files.len() == 1 && crate::text::str_eq(files[0].as_str(), "-") {
        return Dispatch::Stdin;
    }
    let mut kept = keep_text_files(files, binary);
    if kept.len() == 0 {
        Dispatch::Empty
    } else if kept.len() == 1 {
        let f = kept.pop().unwrap();
        Dispatch::Single(f)
    } else {
        Dispatch::Many(kept)
    }
}

} // verus!
