use vstd::prelude::*;
use vstd::string::StringExecFns;

verus! {

/// Which kind of simulation a worker runs, and so where its shard goes.
#[derive(Clone, Copy, Debug, PartialEq, Eq, Structural)]
pub enum RunKind {
    /// Training data, under `./train`.
    Train,
    /// Evaluation data, under `./test`.
    Test,
}

/// Directory of a kind's shards.
pub open spec fn dir_of(k: RunKind) -> Seq<char> {
    match k {
        RunKind::Train => "./train"@,
        RunKind::Test => "./test"@,
    }
}

/// File-name stem of a kind's shards.
pub open spec fn stem_of(k: RunKind) -> Seq<char> {
    match k {
        RunKind::Train => "training"@,
        RunKind::Test => "testing"@,
    }
}

/// The character of a decimal digit `d < 10`.
pub open spec fn digit_char(d: nat) -> char {
    ((d + 48) as u8) as char
}

/// Decimal digits of `n`, most significant first, without leading zeros.
pub open spec fn decimal(n: nat) -> Seq<char>
    decreases n,
{
    if n < 10 {
        seq![digit_char(n)]
    } else {
        decimal(n / 10).push(digit_char(n % 10))
    }
}

/// Relies on the `Display` of `usize` (through `ToString`): plain decimal
/// digits, no sign, no padding.
#[verifier::external_body]
fn decimal_string(n: usize) -> (r: String)
    ensures
        r@ == decimal(n as nat),
{
    n.to_string()
}

impl RunKind {
    /// Directory that holds this kind's shards.
    pub fn dir(&self) -> (r: &'static str)
        ensures
            r@ == dir_of(*self),
    {
        match self {
            RunKind::Train => "./train",
            RunKind::Test => "./test",
        }
    }

    fn stem(&self) -> (r: &'static str)
        ensures
            r@ == stem_of(*self),
    {
        match self {
            RunKind::Train => "training",
            RunKind::Test => "testing",
        }
    }

    /// Path of worker `id`'s shard: `<dir>/<stem>_data.<id>.csv`.
    pub fn shard_name(&self, id: usize) -> (r: String)
        ensures
            r@ == dir_of(*self) + "/"@ + stem_of(*self) + "_data."@ + decimal(id as nat)
                + ".csv"@,
    {
        let mut s = String::from_str(self.dir());
        s.append("/");
        s.append(self.stem());
        s.append("_data.");
        let digits = decimal_string(id);
        s.append(digits.as_str());
        s.append(".csv");
        s
    }
}

} // verus!
