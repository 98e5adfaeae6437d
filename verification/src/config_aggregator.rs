//! Aggregating configuration documents.
//!
//! The launcher reads every configuration document it finds and parses their
//! concatenation as one merged document.  The merged text is the documents'
//! contents joined by line breaks, in the order given.

use vstd::prelude::*;
use vstd::string::StringExecFns;

verus! {

/// The texts joined with one line-break character between consecutive texts.
pub open spec fn joined(contents: Seq<Seq<char>>) -> Seq<char>
    decreases contents.len(),
{
    if contents.len() == 0 {
        Seq::empty()
    } else if contents.len() == 1 {
        contents[0]
    } else {
        joined(contents.drop_last()) + seq!['\n'] + contents.last()
    }
}

/// Merges the contents of all configuration documents into one text, joined
/// by line breaks, in the order given.
pub fn get_aggregated_tomls(contents: &Vec<String>) -> (r: String)
    ensures
        r@ == joined(contents@.map_values(|s: String| s@)),
{
    let ghost m = contents@.map_values(|s: String| s@);
    let mut out = String::new();
    let mut i: usize = 0;
    proof {
        assert(m.take(0) =~= Seq::<Seq<char>>::empty());
    }
    while i < contents.len()
        invariant
            m == contents@.map_values(|s: String| s@),
            i <= contents@.len(),
            out@ == joined(m.take(i as int)),
        decreases contents@.len() - i,
    {
        if i > 0 {
            out.append("\n");
            proof {
                reveal_strlit("\n");
                assert("\n"@ =~= seq!['\n']);
            }
        }
        out.append(contents[i].as_str());
        proof {
            assert(m.take(i + 1).drop_last() =~= m.take(i as int));
            assert(m.take(i + 1).last() == m[i as int]);
        }
        i = i + 1;
    }
    proof {
        assert(m.take(contents@.len() as int) =~= m);
    }
    out
}

} // verus!
