//! The command lines of the shell.
use vstd::prelude::*;

verus! {

/// Index of the first space of `s` from `from` on, or the length of `s`.
pub open spec fn word_end(s: Seq<u8>, from: int) -> int
    decreases s.len() - from,
{
    if from < 0 || from >= s.len() {
        s.len() as int
    } else if s[from] == 32 {
        from
    } else {
        word_end(s, from + 1)
    }
}

/// The words of `s` from `from` on: what stands between spaces and is not
/// empty, each with a zero byte behind it.
pub open spec fn words_from(s: Seq<u8>, from: int) -> Seq<Seq<u8>>
    decreases s.len() - from,
{
    if from < 0 || from >= s.len() {
        Seq::empty()
    } else {
        let e = word_end(s, from);
        if e <= from {
            words_from(s, from + 1)
        } else {
            seq![s.subrange(from, e).push(0u8)] + words_from(
                s,
                if e < s.len() {
                    e + 1
                } else {
                    s.len() as int
                },
            )
        }
    }
}

/// Where a word ends.
pub proof fn lemma_word_end(s: Seq<u8>, from: int)
    requires
        0 <= from <= s.len(),
    ensures
        from <= word_end(s, from) <= s.len(),
        forall|i: int| from <= i < word_end(s, from) ==> s[i] != 32,
        word_end(s, from) < s.len() ==> s[word_end(s, from)] == 32,
    decreases s.len() - from,
{
    if from < s.len() && s[from] != 32 {
        lemma_word_end(s, from + 1);
    }
}

/// Index of the first of `args` that is the mark `marker` alone, with its
/// zero byte, from index `from` on; -1 if there is none.
pub open spec fn marker_from(args: Seq<Seq<u8>>, marker: u8, from: int) -> int
    decreases args.len() - from,
{
    if from < 0 || from >= args.len() {
        -1
    } else if args[from] == seq![marker, 0u8] {
        from
    } else {
        marker_from(args, marker, from + 1)
    }
}

/// What `marker_from` finds.
pub proof fn lemma_marker_from(args: Seq<Seq<u8>>, marker: u8, from: int)
    requires
        0 <= from,
    ensures
        marker_from(args, marker, from) == -1 || from <= marker_from(args, marker, from) < args.len(),
        marker_from(args, marker, from) >= 0 ==> args[marker_from(args, marker, from)] == seq![
            marker,
            0u8,
        ],
    decreases args.len() - from,
{
    if from < args.len() && args[from] != seq![marker, 0u8] {
        lemma_marker_from(args, marker, from + 1);
    }
}

/// The file that a mark in `args` names, empty if there is no mark, and
/// `args` without the mark and the file.
pub open spec fn redirect(args: Seq<Seq<u8>>, marker: u8) -> (Seq<u8>, Seq<Seq<u8>>) {
    let idx = marker_from(args, marker, 0);
    if idx < 0 {
        (Seq::empty(), args)
    } else {
        (args[idx + 1], args.take(idx) + args.skip(idx + 2))
    }
}

/// Whether each mark that counts in `args` has the name of a file behind it.
pub open spec fn redirects_ok(args: Seq<Seq<u8>>) -> bool {
    let i = marker_from(args, 60, 0);
    let rest = redirect(args, 60).1;
    let o = marker_from(rest, 62, 0);
    &&& i >= 0 ==> i + 1 < args.len()
    &&& (i < 0 || i + 1 < args.len()) && o >= 0 ==> o + 1 < rest.len()
}

/// The bytes of each of `v`.
pub open spec fn texts(v: Seq<Vec<u8>>) -> Seq<Seq<u8>> {
    v.map_values(|x: Vec<u8>| x@)
}

/// One command of a command line: the file that its input comes from and
/// the file that its output goes to, empty where there is none, and its
/// words. Each ends with a zero byte.
pub struct ProcessArguments {
    pub input: Vec<u8>,
    pub output: Vec<u8>,
    pub args_copy: Vec<Vec<u8>>,
}

/// The words of `command`; see `words_from`.
pub fn split_words(command: &[u8]) -> (r: Vec<Vec<u8>>)
    ensures
        texts(r@) == words_from(command@, 0),
{
    let mut r: Vec<Vec<u8>> = Vec::new();
    let mut i: usize = 0;
    let n: usize = command.len();
    proof {
        assert(texts(r@) =~= Seq::<Seq<u8>>::empty());
    }
    while i < n
        invariant
            0 <= i <= n,
            n == command@.len(),
            texts(r@) + words_from(command@, i as int) == words_from(command@, 0),
        decreases n - i,
    {
        let mut e: usize = i;
        proof {
            lemma_word_end(command@, i as int);
        }
        while e < n && command[e] != 32
            invariant
                i <= e <= n,
                n == command@.len(),
                word_end(command@, e as int) == word_end(command@, i as int),
            decreases n - e,
        {
            e += 1;
        }
        proof {
            assert(word_end(command@, i as int) == e);
        }
        if e > i {
            let mut word: Vec<u8> = vstd::slice::slice_to_vec(vstd::slice::slice_subrange(command, i, e));
            word.push(0);
            let ghost before = texts(r@);
            r.push(word);
            proof {
                assert(word@ =~= command@.subrange(i as int, e as int).push(0u8));
                assert(texts(r@) =~= before + seq![word@]);
                let next = if e < n {
                    e + 1
                } else {
                    n as int
                };
                assert(words_from(command@, i as int) == seq![word@] + words_from(command@, next));
                assert(texts(r@) + words_from(command@, next) =~= before + words_from(
                    command@,
                    i as int,
                ));
            }
            i = if e < n {
                e + 1
            } else {
                n
            };
        } else {
            i = i + 1;
        }
    }
    proof {
        assert(words_from(command@, i as int) =~= Seq::<Seq<u8>>::empty());
        assert(texts(r@) + Seq::<Seq<u8>>::empty() =~= texts(r@));
    }
    r
}

/// Index of the first of `args` that is the mark `marker` alone; see
/// `marker_from`.
pub fn find_marker(args: &Vec<Vec<u8>>, marker: u8) -> (r: Option<usize>)
    ensures
        match r {
            Some(idx) => idx == marker_from(texts(args@), marker, 0) && idx < args@.len(),
            None => marker_from(texts(args@), marker, 0) == -1,
        },
{
    let mut i: usize = 0;
    while i < args.len()
        invariant
            0 <= i <= args@.len(),
            marker_from(texts(args@), marker, i as int) == marker_from(texts(args@), marker, 0),
        decreases args@.len() - i,
    {
        let a = &args[i];
        proof {
            assert(texts(args@)[i as int] == a@);
        }
        if a.len() == 2 && a[0] == marker && a[1] == 0 {
            proof {
                assert(a@ =~= seq![marker, 0u8]);
            }
            return Some(i);
        }
        proof {
            assert(a@ != seq![marker, 0u8]) by {
                if a@ == seq![marker, 0u8] {
                    assert(seq![marker, 0u8].len() == 2);
                    assert(seq![marker, 0u8][0] == marker);
                    assert(seq![marker, 0u8][1] == 0u8);
                }
            }
        }
        i += 1;
    }
    None
}

/// Takes the first mark `marker` and the file behind it out of `args` and
/// gives the file; see `redirect`.
pub fn take_redirect(args: &mut Vec<Vec<u8>>, marker: u8) -> (file: Vec<u8>)
    requires
        marker_from(texts(old(args)@), marker, 0) >= 0 ==> marker_from(texts(old(args)@), marker, 0)
            + 1 < old(args)@.len(),
    ensures
        file@ == redirect(texts(old(args)@), marker).0,
        texts(final(args)@) == redirect(texts(old(args)@), marker).1,
{
    let ghost before = texts(args@);
    match find_marker(args, marker) {
        None => Vec::new(),
        Some(idx) => {
            let mark = args.remove(idx);
            let file = args.remove(idx);
            proof {
                assert(file@ == before[idx + 1]);
                assert(texts(args@) =~= before.take(idx as int) + before.skip(idx + 2));
            }
            file
        },
    }
}

impl ProcessArguments {
    /// The command that `command` describes: its words, but for the marks
    /// `<` and `>` that stand alone and the names of files behind them,
    /// which say where the input of the command comes from and where its
    /// output goes. The first mark of each kind counts.
    pub fn new(command: &[u8]) -> (r: Self)
        requires
            redirects_ok(words_from(command@, 0)),
        ensures
            r.input@ == redirect(words_from(command@, 0), 60).0,
            r.output@ == redirect(redirect(words_from(command@, 0), 60).1, 62).0,
            texts(r.args_copy@) == redirect(redirect(words_from(command@, 0), 60).1, 62).1,
    {
        let mut args_copy = split_words(command);
        let input = take_redirect(&mut args_copy, 60);
        let output = take_redirect(&mut args_copy, 62);
        Self { input, output, args_copy }
    }

    /// The command that `command` describes, as `new` gives it; `None` where
    /// a mark that counts has no name of a file behind it.
    pub fn parse(command: &[u8]) -> (r: Option<Self>)
        ensures
            r.is_some() == redirects_ok(words_from(command@, 0)),
            r.is_some() ==> {
                &&& r.unwrap().input@ == redirect(words_from(command@, 0), 60).0
                &&& r.unwrap().output@ == redirect(redirect(words_from(command@, 0), 60).1, 62).0
                &&& texts(r.unwrap().args_copy@) == redirect(
                    redirect(words_from(command@, 0), 60).1,
                    62,
                ).1
            },
    {
        let mut args_copy = split_words(command);
        let ghost w = texts(args_copy@);
        proof {
            lemma_marker_from(w, 60, 0);
        }
        match find_marker(&args_copy, 60) {
            Some(idx) => {
                let n: usize = args_copy.len();
                if n - idx <= 1 {
                    return None;
                }
            },
            None => {},
        }
        let input = take_redirect(&mut args_copy, 60);
        proof {
            lemma_marker_from(texts(args_copy@), 62, 0);
        }
        match find_marker(&args_copy, 62) {
            Some(idx) => {
                let n: usize = args_copy.len();
                if n - idx <= 1 {
                    return None;
                }
            },
            None => {},
        }
        let output = take_redirect(&mut args_copy, 62);
        Some(Self { input, output, args_copy })
    }
}

/// Whether the commands of a command line fit together: of several
/// commands that are joined by pipes only the first may take its input from
/// a file and only the last may send its output to a file. One command
/// alone always fits.
pub open spec fn pipeline_ok(list: Seq<ProcessArguments>) -> bool {
    list.len() == 1 || forall|i: int|
        0 <= i < list.len() ==> {
            &&& i > 0 ==> (#[trigger] list[i]).input@.len() == 0
            &&& i < list.len() - 1 ==> list[i].output@.len() == 0
        }
}

/// Whether the commands fit together; see `pipeline_ok`.
pub fn valid_pipeline(list: &Vec<ProcessArguments>) -> (valid: bool)
    ensures
        valid == pipeline_ok(list@),
{
    if list.len() == 1 {
        return true;
    }
    let mut i: usize = 0;
    while i < list.len()
        invariant
            0 <= i <= list@.len(),
            forall|j: int|
                0 <= j < i ==> {
                    &&& j > 0 ==> (#[trigger] list@[j]).input@.len() == 0
                    &&& j < list@.len() - 1 ==> list@[j].output@.len() == 0
                },
        decreases list@.len() - i,
    {
        if i > 0 && list[i].input.len() != 0 {
            return false;
        }
        if i < list.len() - 1 && list[i].output.len() != 0 {
            return false;
        }
        i += 1;
    }
    true
}

} // verus!
