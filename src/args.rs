use vstd::prelude::*;
use vstd::string::StrSliceExecFns;
use vstd::string::StringExecFns;

verus! {

/// The pieces of `s` between its commas, in order: one more piece than there
/// are commas, each taken as it stands.
pub open spec fn split_commas(s: Seq<char>) -> Seq<Seq<char>>
    decreases s.len(),
{
    if s.len() == 0 {
        seq![Seq::empty()]
    } else {
        let init = split_commas(s.drop_last());
        if s.last() == ',' {
            init.push(Seq::empty())
        } else {
            init.update(init.len() - 1, init.last().push(s.last()))
        }
    }
}

proof fn lemma_split_nonempty(s: Seq<char>)
    ensures
        split_commas(s).len() >= 1,
    decreases s.len(),
{
    if s.len() > 0 {
        lemma_split_nonempty(s.drop_last());
    }
}

/// The invocation arguments: the directory to walk and the extension filter.
pub struct Args {
    pub directory: String,
    pub file_ext: Vec<String>,
}

/// Splits a comma-separated list of extensions.
pub fn split_extensions(list: &str) -> (r: Vec<String>)
    ensures
        r.deep_view() == split_commas(list@),
{
    let n = list.unicode_len();
    let mut pieces: Vec<String> = Vec::new();
    let mut start: usize = 0;
    let mut i: usize = 0;
    proof {
        assert(list@.subrange(0, 0) =~= Seq::<char>::empty());
        assert(pieces.deep_view().push(list@.subrange(0, 0)) =~= seq![Seq::<char>::empty()]);
    }
    while i < n
        invariant
            n == list@.len(),
            start <= i <= n,
            split_commas(list@.subrange(0, i as int)) == pieces.deep_view().push(
                list@.subrange(start as int, i as int),
            ),
        decreases n - i,
    {
        let c = list.get_char(i);
        proof {
            assert(list@.subrange(0, i + 1).drop_last() =~= list@.subrange(0, i as int));
            lemma_split_nonempty(list@.subrange(0, i as int));
        }
        if c == ',' {
            let piece = String::from_str(list.substring_char(start, i));
            pieces.push(piece);
            start = i + 1;
            proof {
                assert(list@.subrange(start as int, i + 1) =~= Seq::<char>::empty());
            }
        } else {
            proof {
                assert(list@.subrange(start as int, i + 1) =~= list@.subrange(start as int, i as int).push(c));
            }
        }
        i = i + 1;
    }
    let last = String::from_str(list.substring_char(start, n));
    pieces.push(last);
    proof {
        assert(list@.subrange(0, n as int) =~= list@);
    }
    pieces
}

/// Reads the invocation arguments, the program's name left out: the first is
/// the directory (`.` when absent), the second a comma-separated list of
/// extensions (no filter when absent). Further arguments are ignored.
pub fn get_args(argv: &Vec<String>) -> (args: Args)
    ensures
        argv.len() == 0 ==> args.directory@ == seq!['.'],
        argv.len() > 0 ==> args.directory@ == argv[0]@,
        argv.len() < 2 ==> args.file_ext.deep_view() == Seq::<Seq<char>>::empty(),
        argv.len() >= 2 ==> args.file_ext.deep_view() == split_commas(argv[1]@),
{
    let directory = if argv.len() > 0 {
        argv[0].clone()
    } else {
        String::from_str(".")
    };
    let file_ext = if argv.len() > 1 {
        split_extensions(argv[1].as_str())
    } else {
        Vec::new()
    };
    proof {
        if argv.len() == 0 {
            reveal_strlit(".");
        }
        if argv.len() < 2 {
            assert(file_ext.deep_view() =~= Seq::<Seq<char>>::empty());
        }
    }
    Args { directory, file_ext }
}

} // verus!
