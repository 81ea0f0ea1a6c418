//! Laws of reading the command line.
use vstd::prelude::*;

use crate::cli;
use crate::cli::{Options, OptionsModel};
use crate::text;

verus! {

/// The argument is followed by its value.
pub open spec fn has_value(args: Seq<Seq<char>>, i: int) -> bool {
    &&& i + 1 < args.len()
    &&& args[i] == "--source"@ || args[i] == "--meminfo"@ || args[i] == "-n"@ || args[i]
        == "--interval"@
}

/// The argument stands for itself: it is not the program's name and no value.
pub open spec fn stands(args: Seq<Seq<char>>, i: int) -> bool
    decreases i,
{
    ||| i == 1
    ||| i > 1 && stands(args, i - 1) && !has_value(args, i - 1)
    ||| i > 2 && stands(args, i - 2) && has_value(args, i - 2)
}

/// No argument from position `i` on that stands for itself is one of those that `hits` tells.
pub open spec fn none_hits(args: Seq<Seq<char>>, i: int, hits: spec_fn(int) -> bool) -> bool {
    forall|j: int| i <= j < args.len() && #[trigger] stands(args, j) ==> !hits(j)
}

/// The argument at `j` is the last that stands for itself and is one of those that `hits` tells.
pub open spec fn last_hit(
    args: Seq<Seq<char>>,
    i: int,
    hits: spec_fn(int) -> bool,
    j: int,
) -> bool {
    i <= j < args.len() && stands(args, j) && hits(j) && none_hits(args, j + 1, hits)
}

/// The argument at `j` has this name, and a value.
pub open spec fn valued(args: Seq<Seq<char>>, name: Seq<char>) -> spec_fn(int) -> bool {
    |j: int| args[j] == name && j + 1 < args.len()
}

/// The argument at `j` asks for an interval, and its value is a number.
pub open spec fn timed(args: Seq<Seq<char>>) -> spec_fn(int) -> bool {
    |j: int|
        (args[j] == "-n"@ || args[j] == "--interval"@) && j + 1 < args.len() && text::number(
            args[j + 1],
        ) is Some
}

/// The argument at `j` asks for help.
pub open spec fn helps(args: Seq<Seq<char>>) -> spec_fn(int) -> bool {
    |j: int| args[j] == "--help"@
}

proof fn lemma_values_do_not_stand(args: Seq<Seq<char>>, i: int)
    requires
        1 <= i,
        stands(args, i),
        has_value(args, i),
    ensures
        !stands(args, i + 1),
    decreases i,
{
    if i > 1 && stands(args, i - 1) && has_value(args, i - 1) {
        lemma_values_do_not_stand(args, i - 1);
    }
}

/// The names of the options are all different.
proof fn lemma_names()
    ensures
        "--source"@.len() == 8,
        "--meminfo"@.len() == 9,
        "-n"@.len() == 2,
        "--interval"@.len() == 10,
        "--help"@.len() == 6,
{
    reveal_strlit("--source");
    reveal_strlit("--meminfo");
    reveal_strlit("-n");
    reveal_strlit("--interval");
    reveal_strlit("--help");
}

/// What reading the arguments from position `i` on makes of the options `o`.
proof fn lemma_parsed(args: Seq<Seq<char>>, i: int, o: OptionsModel)
    requires
        1 <= i <= args.len(),
        stands(args, i),
    ensures
        ({
            let p = cli::parsed(args.skip(i), o);
            let s = valued(args, "--source"@);
            let m = valued(args, "--meminfo"@);
            &&& none_hits(args, i, s) ==> p.source == o.source
            &&& forall|j: int| #[trigger] last_hit(args, i, s, j) ==> p.source == args[j + 1]
            &&& none_hits(args, i, m) ==> p.meminfo == o.meminfo
            &&& forall|j: int| #[trigger] last_hit(args, i, m, j) ==> p.meminfo == Some(args[j + 1])
            &&& none_hits(args, i, timed(args)) ==> p.interval_ms == o.interval_ms
            &&& forall|j: int| #[trigger]
                last_hit(args, i, timed(args), j) ==> text::number(args[j + 1]) == Some(
                    p.interval_ms,
                )
            &&& p.help == (o.help || !none_hits(args, i, helps(args)))
        }),
    decreases args.len() - i,
{
    let rest = args.skip(i);
    lemma_names();
    if i < args.len() {
        assert(rest[0] == args[i]);
        assert(rest.skip(1) =~= args.skip(i + 1));
        let taken = has_value(args, i);
        let next = if taken {
            i + 2
        } else {
            i + 1
        };
        let changed = if taken {
            cli::with_value(o, args[i], args[i + 1])
        } else if args[i] == "--help"@ {
            OptionsModel { help: true, ..o }
        } else {
            o
        };
        if taken {
            assert(rest[1] == args[i + 1]);
            assert(rest.skip(2) =~= args.skip(i + 2));
            lemma_values_do_not_stand(args, i);
        }
        assert(stands(args, next));
        lemma_parsed(args, next, changed);
        assert(cli::parsed(rest, o) == cli::parsed(args.skip(next), changed));
        lemma_step(args, i, next, valued(args, "--source"@));
        lemma_step(args, i, next, valued(args, "--meminfo"@));
        lemma_step(args, i, next, timed(args));
        lemma_step(args, i, next, helps(args));
    }
}

/// What comes after one argument, and its value, decides, unless it says nothing.
proof fn lemma_step(args: Seq<Seq<char>>, i: int, next: int, hits: spec_fn(int) -> bool)
    requires
        1 <= i < args.len(),
        stands(args, i),
        next == i + 1 || next == i + 2 && !stands(args, i + 1),
    ensures
        none_hits(args, i, hits) <==> !hits(i) && none_hits(args, next, hits),
        forall|j: int| #[trigger]
            last_hit(args, i, hits, j) ==> j == i && hits(i) && none_hits(args, next, hits)
                || last_hit(args, next, hits, j),
{
    assert forall|j: int| #[trigger] last_hit(args, i, hits, j) implies j == i && hits(i)
        && none_hits(args, next, hits) || last_hit(args, next, hits, j) by {
        if j == i {
            assert forall|k: int| next <= k < args.len() && #[trigger] stands(
                args,
                k,
            ) implies !hits(k) by {}
        }
    }
    if !hits(i) && none_hits(args, next, hits) {
        assert forall|j: int| i <= j < args.len() && #[trigger] stands(args, j) implies !hits(
            j,
        ) by {}
    }
}

/// What each argument spells.
pub open spec fn spelled(args: Seq<String>) -> Seq<Seq<char>> {
    Seq::new(args.len(), |i: int| args[i]@)
}

/// Of each option the last one counts, with the value that follows it; of the interval, the last
/// whose value is a number. Without one, the default holds. Help is asked for if it is asked for
/// anywhere. A value is no option, whatever it spells, and other arguments say nothing.
pub proof fn last_options_count(args: Vec<String>, r: Options)
    requires
        call_ensures(cli::parse_args, (&args,), r),
    ensures
        ({
            let a = spelled(args@);
            let s = valued(a, "--source"@);
            let m = valued(a, "--meminfo"@);
            &&& none_hits(a, 1, s) ==> r.source@ == "/proc/spl/kstat/zfs/arcstats"@
            &&& forall|j: int| #[trigger] last_hit(a, 1, s, j) ==> r.source@ == a[j + 1]
            &&& none_hits(a, 1, m) ==> r.meminfo is None
            &&& forall|j: int| #[trigger]
                last_hit(a, 1, m, j) ==> r.meminfo is Some && r.meminfo->0@ == a[j + 1]
            &&& none_hits(a, 1, timed(a)) ==> r.interval_ms == 1000
            &&& forall|j: int| #[trigger]
                last_hit(a, 1, timed(a), j) ==> text::number(a[j + 1]) == Some(r.interval_ms)
            &&& r.help == !none_hits(a, 1, helps(a))
        }),
{
    let a = spelled(args@);
    assert(a =~= cli::contents(args@));
    if a.len() > 0 {
        lemma_parsed(a, 1, cli::defaults());
    }
}

/// Among arguments one of which is told, one is the last.
pub proof fn some_hit_is_last(args: Seq<Seq<char>>, i: int, hits: spec_fn(int) -> bool)
    requires
        !none_hits(args, i, hits),
    ensures
        exists|j: int| last_hit(args, i, hits, j),
    decreases args.len() - i,
{
    let j = choose|j: int| i <= j < args.len() && #[trigger] stands(args, j) && hits(j);
    if none_hits(args, j + 1, hits) {
        assert(last_hit(args, i, hits, j));
    } else {
        let next = j + 1;
        some_hit_is_last(args, next, hits);
        let k = choose|k: int| last_hit(args, next, hits, k);
        assert(last_hit(args, i, hits, k));
    }
}

} // verus!
