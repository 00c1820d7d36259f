//! A small argument parser: tokens that start with `-` are flags, each
//! taking the next token as its value unless that token is a flag too;
//! the remaining tokens are commands.
use vstd::prelude::*;
use crate::text::str_eq;

verus! {

/// A flag and its value; the value is empty when none followed.
#[derive(Debug)]
pub struct Flag {
    pub flag: String,
    pub value: String,
}

/// Commands and flags read from a list of tokens.
#[derive(Debug)]
pub struct ClICommand {
    pub command: Vec<String>,
    pub flags: Vec<Flag>,
}

pub struct FlagView {
    pub flag: Seq<char>,
    pub value: Seq<char>,
}

impl View for Flag {
    type V = FlagView;

    open spec fn view(&self) -> FlagView {
        FlagView { flag: self.flag@, value: self.value@ }
    }
}

pub open spec fn flags_view(v: Seq<Flag>) -> Seq<FlagView> {
    v.map_values(|f: Flag| f@)
}

pub open spec fn tokens_view(v: Seq<String>) -> Seq<Seq<char>> {
    v.map_values(|s: String| s@)
}

pub open spec fn is_flag(t: Seq<char>) -> bool {
    t.len() > 0 && t[0] == '-'
}

/// The flag token at `i` takes the next token as its value.
pub open spec fn takes_value(ts: Seq<Seq<char>>, i: int) -> bool {
    i + 1 < ts.len() && !is_flag(ts[i + 1])
}

/// The flags among the first `k` tokens, in order.
pub open spec fn flags_upto(ts: Seq<Seq<char>>, k: int) -> Seq<FlagView>
    decreases k,
{
    if k <= 0 {
        Seq::empty()
    } else if is_flag(ts[k - 1]) {
        flags_upto(ts, k - 1).push(
            FlagView {
                flag: ts[k - 1],
                value: if takes_value(ts, k - 1) {
                    ts[k]
                } else {
                    Seq::empty()
                },
            },
        )
    } else {
        flags_upto(ts, k - 1)
    }
}

/// The tokens consumed by the flags among the first `k` tokens.
pub open spec fn consumed_upto(ts: Seq<Seq<char>>, k: int) -> Seq<Seq<char>>
    decreases k,
{
    if k <= 0 {
        Seq::empty()
    } else if is_flag(ts[k - 1]) {
        if takes_value(ts, k - 1) {
            consumed_upto(ts, k - 1).push(ts[k - 1]).push(ts[k])
        } else {
            consumed_upto(ts, k - 1).push(ts[k - 1])
        }
    } else {
        consumed_upto(ts, k - 1)
    }
}

/// The tokens that are not among `args`, in order.
pub open spec fn without_args(ts: Seq<Seq<char>>, args: Seq<Seq<char>>) -> Seq<Seq<char>> {
    ts.filter(|t: Seq<char>| !args.contains(t))
}

fn starts_with_dash(t: &String) -> (r: bool)
    ensures
        r == is_flag(t@),
{
    let s = t.as_str();
    s.unicode_len() > 0 && s.get_char(0) == '-'
}

fn contains_token(args: &Vec<String>, t: &String) -> (r: bool)
    ensures
        r == tokens_view(args@).contains(t@),
{
    let mut i: usize = 0;
    while i < args.len()
        invariant
            i <= args@.len(),
            forall|j: int| 0 <= j < i ==> tokens_view(args@)[j] != t@,
        decreases args@.len() - i,
    {
        if str_eq(args[i].as_str(), t.as_str()) {
            assert(tokens_view(args@)[i as int] == t@);
            return true;
        }
        i += 1;
    }
    false
}

/// The tokens of `tokens` that are not among `args`, in order.
pub fn remove_args(tokens: Vec<String>, args: &Vec<String>) -> (r: Vec<String>)
    ensures
        tokens_view(r@) == without_args(tokens_view(tokens@), tokens_view(args@)),
{
    let ghost ts = tokens_view(tokens@);
    let ghost av = tokens_view(args@);
    let mut r: Vec<String> = Vec::new();
    let mut i: usize = 0;
    while i < tokens.len()
        invariant
            ts == tokens_view(tokens@),
            av == tokens_view(args@),
            i <= tokens@.len(),
            tokens_view(r@) == without_args(ts.subrange(0, i as int), av),
        decreases tokens@.len() - i,
    {
        proof {
            reveal(Seq::filter);
            assert(ts.subrange(0, i + 1).drop_last() =~= ts.subrange(0, i as int));
            assert(ts.subrange(0, i + 1).last() == tokens@[i as int]@);
        }
        if !contains_token(args, &tokens[i]) {
            let ghost before = r@;
            r.push(tokens[i].clone());
            assert(tokens_view(r@) =~= tokens_view(before).push(tokens@[i as int]@));
        }
        i += 1;
    }
    assert(ts.subrange(0, tokens@.len() as int) =~= ts);
    r
}

/// Takes the flags out of `tokens`: returns them in order, and leaves in
/// `tokens` every token that is not equal to a flag or a flag's value.
pub fn get_flags(tokens: &mut Vec<String>) -> (r: Vec<Flag>)
    ensures
        flags_view(r@) == flags_upto(tokens_view(old(tokens)@), old(tokens)@.len() as int),
        tokens_view(final(tokens)@) == without_args(
            tokens_view(old(tokens)@),
            consumed_upto(tokens_view(old(tokens)@), old(tokens)@.len() as int),
        ),
{
    let ghost ts = tokens_view(tokens@);
    let mut flags: Vec<Flag> = Vec::new();
    let mut removed: Vec<String> = Vec::new();
    let n = tokens.len();
    let mut i: usize = 0;
    while i < n
        invariant
            n == tokens@.len(),
            ts == tokens_view(tokens@),
            tokens@ == old(tokens)@,
            i <= n,
            flags_view(flags@) == flags_upto(ts, i as int),
            tokens_view(removed@) == consumed_upto(ts, i as int),
        decreases n - i,
    {
        if starts_with_dash(&tokens[i]) {
            let has_value = i + 1 < n && !starts_with_dash(&tokens[i + 1]);
            let value = if has_value {
                tokens[i + 1].clone()
            } else {
                String::new()
            };
            let f = Flag { flag: tokens[i].clone(), value };
            let ghost before = flags@;
            let ghost fv = f@;
            flags.push(f);
            assert(flags_view(flags@) =~= flags_view(before).push(fv));
            let ghost rb = removed@;
            removed.push(tokens[i].clone());
            if has_value {
                removed.push(tokens[i + 1].clone());
                assert(tokens_view(removed@) =~= tokens_view(rb).push(ts[i as int]).push(ts[i + 1]));
            } else {
                assert(tokens_view(removed@) =~= tokens_view(rb).push(ts[i as int]));
            }
        }
        i += 1;
    }
    let mut all: Vec<String> = Vec::new();
    core::mem::swap(&mut all, tokens);
    *tokens = remove_args(all, &removed);
    flags
}

impl ClICommand {
    /// No commands and no flags.
    pub fn new() -> (r: ClICommand)
        ensures
            r.command@.len() == 0,
            r.flags@.len() == 0,
    {
        ClICommand { command: Vec::new(), flags: Vec::new() }
    }

    /// Reads commands and flags from `commands`.
    pub fn parse(commands: &Vec<String>) -> (r: ClICommand)
        ensures
            flags_view(r.flags@) == flags_upto(tokens_view(commands@), commands@.len() as int),
            tokens_view(r.command@) == without_args(
                tokens_view(commands@),
                consumed_upto(tokens_view(commands@), commands@.len() as int),
            ),
    {
        let mut tokens = commands.clone();
        assert(tokens@ =~= commands@) by {
            assert forall|i: int| 0 <= i < commands@.len() implies tokens@[i] == commands@[i] by {}
        }
        let flags = get_flags(&mut tokens);
        ClICommand { flags, command: tokens }
    }

    /// The first flag named `flag`, if any.
    pub fn get_flag(&self, flag: &str) -> (r: Option<&Flag>)
        ensures
            r is None <==> forall|i: int| 0 <= i < self.flags@.len() ==> (#[trigger] self.flags@[i]).flag@ != flag@,
            r matches Some(f) ==> exists|i: int|
                0 <= i < self.flags@.len() && self.flags@[i] == *f && f.flag@ == flag@ && forall|j: int|
                    0 <= j < i ==> (#[trigger] self.flags@[j]).flag@ != flag@,
    {
        let mut i: usize = 0;
        while i < self.flags.len()
            invariant
                i <= self.flags@.len(),
                forall|j: int| 0 <= j < i ==> (#[trigger] self.flags@[j]).flag@ != flag@,
            decreases self.flags@.len() - i,
        {
            if str_eq(self.flags[i].flag.as_str(), flag) {
                return Some(&self.flags[i]);
            }
            i += 1;
        }
        None
    }

    /// The first command, or an empty string when there is none.
    pub fn get_first(&self) -> (r: String)
        ensures
            self.command@.len() == 0 ==> r@.len() == 0,
            self.command@.len() > 0 ==> r@ == self.command@[0]@,
    {
        if self.command.len() == 0 {
            return String::new();
        }
        self.command[0].clone()
    }

    /// Drops the first command, if there is one.
    pub fn remove_first(&mut self)
        ensures
            old(self).command@.len() == 0 ==> final(self).command@ == old(self).command@,
            old(self).command@.len() > 0 ==> final(self).command@ == old(self).command@.drop_first(),
            final(self).flags == old(self).flags,
    {
        if self.command.len() == 0 {
            return;
        }
        self.command.remove(0);
        assert(self.command@ =~= old(self).command@.drop_first());
    }
}

} // verus!
