//! The command line of the batch downloader and prime calculator, and the
//! random inputs of its prime benchmark.
use vstd::prelude::*;

use rand::distributions::Distribution;

use crate::number::{
    is_digit, lemma_decimal_digits, parse_i32, parse_reads_back_decimal, parse_signed,
    parse_unsigned, parse_usize,
};
use crate::text::decimal;

verus! {

/// What the batch program is asked to do.
pub enum BatchCommand {
    /// Print the primes up to `n`.
    Prime { n: usize },
    /// Sieve 20 random numbers in `lower..higher` on `threads` threads.
    Primes { threads: i32, lower: usize, higher: usize },
    /// Download every ticket of the database.
    Batch,
}

/// Why the command line is refused.
pub enum CommandError {
    /// The first argument names no command.
    UnknownCommand,
    /// A number argument is not a number of its type.
    InvalidNumber,
}

/// Argument `i`, or `default` when there are fewer arguments.
pub open spec fn arg_or(args: Seq<Seq<char>>, i: int, default: Seq<char>) -> Seq<char> {
    if i < args.len() {
        args[i]
    } else {
        default
    }
}

/// The command that the arguments (the program's name left out) ask for: `prime`
/// with an optional bound (10 by default), `primes` with optional thread count,
/// lower and upper bound (7, 1000, 1000000 by default), or `batch`.
pub open spec fn command_of(args: Seq<Seq<char>>) -> Result<BatchCommand, CommandError> {
    let cmd = arg_or(args, 0, Seq::empty());
    if cmd == seq!['p', 'r', 'i', 'm', 'e'] {
        match parse_unsigned(arg_or(args, 1, seq!['1', '0']), usize::MAX as nat) {
            Some(n) => Ok(BatchCommand::Prime { n: n as usize }),
            None => Err(CommandError::InvalidNumber),
        }
    } else if cmd == seq!['p', 'r', 'i', 'm', 'e', 's'] {
        let threads = parse_signed(arg_or(args, 1, seq!['7']), i32::MIN as int, i32::MAX as nat);
        let lower = parse_unsigned(arg_or(args, 2, seq!['1', '0', '0', '0']), usize::MAX as nat);
        let higher = parse_unsigned(
            arg_or(args, 3, seq!['1', '0', '0', '0', '0', '0', '0']),
            usize::MAX as nat,
        );
        if threads is Some && lower is Some && higher is Some {
            Ok(
                BatchCommand::Primes {
                    threads: threads->0 as i32,
                    lower: lower->0 as usize,
                    higher: higher->0 as usize,
                },
            )
        } else {
            Err(CommandError::InvalidNumber)
        }
    } else if cmd == seq!['b', 'a', 't', 'c', 'h'] {
        Ok(BatchCommand::Batch)
    } else {
        Err(CommandError::UnknownCommand)
    }
}

/// Argument `i`, or `default` when there are fewer arguments.
fn arg_or_default(args: &Vec<String>, i: usize, default: &str) -> (res: String)
    ensures
        res@ == arg_or(args@.map_values(|s: String| s@), i as int, default@),
{
    if i < args.len() {
        args[i].clone()
    } else {
        String::from_str(default)
    }
}

/// Reads the command line of the batch program (the program's name left out).
pub fn parse_command(args: &Vec<String>) -> (res: Result<BatchCommand, CommandError>)
    ensures
        res == command_of(args@.map_values(|s: String| s@)),
{
    proof {
        reveal_strlit("");
        reveal_strlit("prime");
        reveal_strlit("primes");
        reveal_strlit("batch");
        reveal_strlit("10");
        reveal_strlit("7");
        reveal_strlit("1000");
        reveal_strlit("1000000");
    }
    let ghost texts = args@.map_values(|s: String| s@);
    let cmd = arg_or_default(args, 0, "");
    assert(""@ =~= Seq::<char>::empty());
    let prime_word = String::from_str("prime");
    let primes_word = String::from_str("primes");
    let batch_word = String::from_str("batch");
    assert(prime_word@ =~= seq!['p', 'r', 'i', 'm', 'e']);
    assert(primes_word@ =~= seq!['p', 'r', 'i', 'm', 'e', 's']);
    assert(batch_word@ =~= seq!['b', 'a', 't', 'c', 'h']);
    if cmd == prime_word {
        assert(cmd@ =~= seq!['p', 'r', 'i', 'm', 'e']);
        let bound = arg_or_default(args, 1, "10");
        assert("10"@ =~= seq!['1', '0']);
        match parse_usize(bound.as_str()) {
            Some(n) => Ok(BatchCommand::Prime { n }),
            None => Err(CommandError::InvalidNumber),
        }
    } else if cmd == primes_word {
        assert(cmd@ =~= seq!['p', 'r', 'i', 'm', 'e', 's']);
        assert(cmd@ != seq!['p', 'r', 'i', 'm', 'e']);
        let threads_text = arg_or_default(args, 1, "7");
        let lower_text = arg_or_default(args, 2, "1000");
        let higher_text = arg_or_default(args, 3, "1000000");
        assert("7"@ =~= seq!['7']);
        assert("1000"@ =~= seq!['1', '0', '0', '0']);
        assert("1000000"@ =~= seq!['1', '0', '0', '0', '0', '0', '0']);
        let threads = parse_i32(threads_text.as_str());
        let lower = parse_usize(lower_text.as_str());
        let higher = parse_usize(higher_text.as_str());
        match (threads, lower, higher) {
            (Some(t), Some(l), Some(h)) => Ok(BatchCommand::Primes { threads: t, lower: l, higher: h }),
            _ => Err(CommandError::InvalidNumber),
        }
    } else if cmd == batch_word {
        assert(cmd@ =~= seq!['b', 'a', 't', 'c', 'h']);
        assert(cmd@ != seq!['p', 'r', 'i', 'm', 'e']);
        assert(cmd@ != seq!['p', 'r', 'i', 'm', 'e', 's']);
        Ok(BatchCommand::Batch)
    } else {
        Err(CommandError::UnknownCommand)
    }
}

/// The batch command line reads its numbers as written in decimal: `prime N`
/// sieves up to N (10 without N), `primes T L H` runs T threads on inputs in
/// `L..H`, `batch` downloads, and an empty line names no command.
pub proof fn batch_command_reads_decimal_numbers(
    args: Seq<Seq<char>>,
    n: nat,
    t: nat,
    lo: nat,
    hi: nat,
)
    requires
        n <= usize::MAX,
        t <= i32::MAX,
        lo <= usize::MAX,
        hi <= usize::MAX,
    ensures
        args == seq![seq!['p', 'r', 'i', 'm', 'e'], decimal(n)] ==> command_of(args) == Ok::<
            BatchCommand,
            CommandError,
        >(BatchCommand::Prime { n: n as usize }),
        args == seq![seq!['p', 'r', 'i', 'm', 'e']] ==> command_of(args) == Ok::<
            BatchCommand,
            CommandError,
        >(BatchCommand::Prime { n: 10 }),
        args == seq![seq!['p', 'r', 'i', 'm', 'e', 's'], decimal(t), decimal(lo), decimal(hi)]
            ==> command_of(args) == Ok::<BatchCommand, CommandError>(
            BatchCommand::Primes { threads: t as i32, lower: lo as usize, higher: hi as usize },
        ),
        args.len() >= 1 && args[0] == seq!['b', 'a', 't', 'c', 'h'] ==> command_of(args) == Ok::<
            BatchCommand,
            CommandError,
        >(BatchCommand::Batch),
        args.len() == 0 ==> command_of(args) == Err::<BatchCommand, CommandError>(
            CommandError::UnknownCommand,
        ),
{
    parse_reads_back_decimal(n, usize::MAX as nat);
    parse_reads_back_decimal(t, i32::MAX as nat);
    parse_reads_back_decimal(lo, usize::MAX as nat);
    parse_reads_back_decimal(hi, usize::MAX as nat);
    parse_reads_back_decimal(10, usize::MAX as nat);
    lemma_decimal_digits(t);
    assert(is_digit(decimal(t)[0]));
    reveal_with_fuel(decimal, 3);
    assert(decimal(10) =~= seq!['1', '0']);
    assert(Seq::<char>::empty() != seq!['p', 'r', 'i', 'm', 'e']);
    let primes_word = seq!['p', 'r', 'i', 'm', 'e', 's'];
    if args == seq![primes_word, decimal(t), decimal(lo), decimal(hi)] {
        assert(args[0].len() == 6);
        assert(args[0] != seq!['p', 'r', 'i', 'm', 'e']);
        assert(arg_or(args, 1, seq!['7']) == decimal(t));
        assert(arg_or(args, 2, seq!['1', '0', '0', '0']) == decimal(lo));
        assert(arg_or(args, 3, seq!['1', '0', '0', '0', '0', '0', '0']) == decimal(hi));
        assert(decimal(t)[0] != '-');
        assert(parse_signed(decimal(t), i32::MIN as int, i32::MAX as nat) == Some(t as int));
    }
}

/// A number drawn uniformly from `low..high` with the thread's random generator,
/// through `rand::distributions::Uniform::from(low..high)` and its `sample` with
/// `rand::thread_rng()`. The contract claims only that the number lies in the
/// range: which number comes out is left to chance.
#[verifier::external_body]
fn sample_uniform(low: usize, high: usize) -> (res: usize)
    requires
        low < high,
    ensures
        low <= res < high,
{
    rand::distributions::Uniform::from(low..high).sample(&mut rand::thread_rng())
}

/// The number of random inputs of the prime benchmark.
pub const INPUT_COUNT: usize = 20;

/// Twenty numbers drawn uniformly from `low..high`.
pub fn random_inputs(low: usize, high: usize) -> (res: Vec<usize>)
    requires
        low < high,
    ensures
        res.len() == INPUT_COUNT,
        forall|i: int| 0 <= i < res.len() ==> low <= #[trigger] res@[i] < high,
{
    let mut array: Vec<usize> = Vec::with_capacity(5000);
    let mut i: usize = 0;
    while i < INPUT_COUNT
        invariant
            low < high,
            i <= INPUT_COUNT,
            array.len() == i,
            forall|k: int| 0 <= k < array.len() ==> low <= #[trigger] array@[k] < high,
        decreases INPUT_COUNT - i,
    {
        array.push(sample_uniform(low, high));
        i = i + 1;
    }
    array
}

} // verus!
