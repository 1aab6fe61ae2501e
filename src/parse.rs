//! Compiling descriptors into a table, and the left-to-right scan over tokens.
use vstd::prelude::*;
use crate::help::{Help, help_of};
use crate::argdef::{ArgDef, ArgDefKind, DefV, KindV, convert, conversion_message, opt_str_view};

verus! {

/// The descriptors as mathematical values.
pub open spec fn defs_view(defs: Seq<ArgDef>) -> Seq<DefV> {
    defs.map_values(|d: ArgDef| d@)
}

/// The compiled table: indices into the descriptor list, by role.
pub struct TableV {
    /// Positional descriptors, in declaration order.
    pub positional: Seq<usize>,
    /// The trail, if one is declared.
    pub trail: Option<usize>,
    /// Descriptors named with dashes, in declaration order.
    pub options: Seq<usize>,
    /// The options that declare a short alias, in declaration order.
    pub shorts: Seq<usize>,
    /// Subcommands, in declaration order.
    pub subcommands: Seq<usize>,
}

impl TableV {
    pub open spec fn empty() -> TableV {
        TableV {
            positional: Seq::empty(),
            trail: None,
            options: Seq::empty(),
            shorts: Seq::empty(),
            subcommands: Seq::empty(),
        }
    }

    /// Every index in the table is below `n`.
    pub open spec fn bounded(self, n: int) -> bool {
        &&& forall|k: int| 0 <= k < self.positional.len() ==> self.positional[k] < n
        &&& forall|k: int| 0 <= k < self.options.len() ==> self.options[k] < n
        &&& forall|k: int| 0 <= k < self.shorts.len() ==> self.shorts[k] < n
        &&& forall|k: int| 0 <= k < self.subcommands.len() ==> self.subcommands[k] < n
        &&& self.trail is Some ==> self.trail->0 < n
    }
}

/// The first descriptor among `ids` named `key`.
pub open spec fn find_named(defs: Seq<DefV>, ids: Seq<usize>, key: Seq<char>) -> Option<usize>
    decreases ids.len(),
{
    if ids.len() == 0 {
        None
    } else if defs[ids[0] as int].name == key {
        Some(ids[0])
    } else {
        find_named(defs, ids.drop_first(), key)
    }
}

/// The first descriptor among `ids` whose short alias is `key`.
pub open spec fn find_short(defs: Seq<DefV>, ids: Seq<usize>, key: Seq<char>) -> Option<usize>
    decreases ids.len(),
{
    if ids.len() == 0 {
        None
    } else if defs[ids[0] as int].kind.short() == Some(key) {
        Some(ids[0])
    } else {
        find_short(defs, ids.drop_first(), key)
    }
}

pub open spec fn conflict_message() -> Seq<char> {
    "Positional (+trail) and subcommand definitions cannot be used together."@
}

pub open spec fn two_trails_message() -> Seq<char> {
    "Two trails defined."@
}

pub open spec fn quoted(prefix: Seq<char>, name: Seq<char>, suffix: Seq<char>) -> Seq<char> {
    prefix + name + suffix
}

/// Whether a positional or the trail of `t` is named `name`.
pub open spec fn positional_named(defs: Seq<DefV>, t: TableV, name: Seq<char>) -> bool {
    ||| find_named(defs, t.positional, name) is Some
    ||| (t.trail is Some && defs[t.trail->0 as int].name == name)
}

/// Whether an option or a subcommand of `t` is named `name`.
pub open spec fn command_named(defs: Seq<DefV>, t: TableV, name: Seq<char>) -> bool {
    ||| find_named(defs, t.options, name) is Some
    ||| find_named(defs, t.subcommands, name) is Some
}

/// Adds descriptor `i` to the table built from the ones before it, or names
/// the rule that it breaks.
pub open spec fn add_def(defs: Seq<DefV>, t: TableV, i: usize) -> Result<TableV, Seq<char>> {
    let d = defs[i as int];
    match d.kind {
        KindV::Positional { .. } => if t.subcommands.len() > 0 {
            Err(conflict_message())
        } else if positional_named(defs, t, d.name) {
            Err(quoted("Positional '"@, d.name, "' defined twice."@))
        } else {
            Ok(TableV { positional: t.positional.push(i), ..t })
        },
        KindV::Trail { .. } => if t.subcommands.len() > 0 {
            Err(conflict_message())
        } else if t.trail is Some {
            Err(two_trails_message())
        } else if positional_named(defs, t, d.name) {
            Err(quoted("Positional '"@, d.name, "' defined twice."@))
        } else {
            Ok(TableV { trail: Some(i), ..t })
        },
        KindV::Subcommand => if t.positional.len() > 0 || t.trail is Some {
            Err(conflict_message())
        } else if command_named(defs, t, d.name) {
            Err(quoted("Subcommand '"@, d.name, "' defined twice."@))
        } else {
            Ok(TableV { subcommands: t.subcommands.push(i), ..t })
        },
        _ => if d.kind.short() is Some && find_short(defs, t.shorts, d.kind.short()->0) is Some {
            Err(quoted("Short name '"@, d.kind.short()->0, "' defined twice."@))
        } else if command_named(defs, t, d.name) {
            Err(quoted("Option '"@, d.name, "' defined twice."@))
        } else {
            Ok(
                TableV {
                    options: t.options.push(i),
                    shorts: if d.kind.short() is Some {
                        t.shorts.push(i)
                    } else {
                        t.shorts
                    },
                    ..t
                },
            )
        },
    }
}

/// The table of the first `n` descriptors, or the first rule broken among them.
pub open spec fn compile_upto(defs: Seq<DefV>, n: nat) -> Result<TableV, Seq<char>>
    decreases n,
{
    if n == 0 {
        Ok(TableV::empty())
    } else {
        match compile_upto(defs, (n - 1) as nat) {
            Ok(t) => add_def(defs, t, (n - 1) as usize),
            Err(m) => Err(m),
        }
    }
}

/// The table of a descriptor list, or the first rule that it breaks.
pub open spec fn compile(defs: Seq<DefV>) -> Result<TableV, Seq<char>> {
    compile_upto(defs, defs.len())
}

/// A descriptor list that compiles.
pub open spec fn valid_defs(defs: Seq<DefV>) -> bool {
    compile(defs) is Ok
}

/// Why a parse did not complete.
#[derive(Debug)]
pub enum ParseError {
    /// The descriptors break a rule: a defect of the calling program.
    InvalidDefinitions(String),
    /// The tokens do not fit the descriptors; the help projection is given for
    /// display beside the message.
    ParseFailed(String, Help),
    /// An interrupt option with this name was given. Bindings touched before it
    /// keep what they were given.
    Interrupted(String),
    /// A subcommand's own parse failed and has reported it.
    SubParseFailed,
}

/// The descriptors sorted by role, as indices into the descriptor list.
#[derive(Debug)]
pub struct ParseState {
    positional: Vec<usize>,
    trail: Option<usize>,
    options: Vec<usize>,
    short_map: Vec<usize>,
    subcommands: Vec<usize>,
}

impl View for ParseState {
    type V = TableV;

    closed spec fn view(&self) -> TableV {
        TableV {
            positional: self.positional@,
            trail: self.trail,
            options: self.options@,
            shorts: self.short_map@,
            subcommands: self.subcommands@,
        }
    }
}

fn quote(prefix: &str, name: &str, suffix: &str) -> (r: String)
    ensures
        r@ == quoted(prefix@, name@, suffix@),
{
    let mut m = prefix.to_owned();
    m.append(name);
    m.append(suffix);
    m
}

fn find_named_in(defs: &Vec<ArgDef>, ids: &Vec<usize>, key: &String) -> (r: Option<usize>)
    requires
        forall|k: int| 0 <= k < ids@.len() ==> #[trigger] ids@[k] < defs@.len(),
    ensures
        r == find_named(defs_view(defs@), ids@, key@),
        r is Some ==> r->0 < defs.len(),
{
    let ghost dv = defs_view(defs@);
    let mut k: usize = 0;
    assert(ids@.subrange(0, ids.len() as int) =~= ids@);
    while k < ids.len()
        invariant
            0 <= k <= ids.len(),
            forall|j: int| 0 <= j < ids.len() ==> ids[j] < defs.len(),
            dv == defs_view(defs@),
            find_named(dv, ids@, key@) == find_named(dv, ids@.subrange(k as int, ids.len() as int), key@),
        decreases ids.len() - k,
    {
        let ghost rest = ids@.subrange(k as int, ids.len() as int);
        assert(rest.drop_first() =~= ids@.subrange(k + 1, ids.len() as int));
        let idx = ids[k];
        if defs[idx].name == *key {
            return Some(idx);
        }
        k = k + 1;
    }
    None
}

fn short_is(kind: &ArgDefKind, key: &String) -> (r: bool)
    ensures
        r == (kind@.short() == Some(key@)),
{
    let s = match kind {
        ArgDefKind::Flag { short, .. } => short,
        ArgDefKind::Count { short, .. } => short,
        ArgDefKind::OptArg { short, .. } => short,
        ArgDefKind::Interrupt { short } => short,
        _ => { return false; },
    };
    match s {
        Some(s) => *s == *key,
        None => false,
    }
}

fn find_short_in(defs: &Vec<ArgDef>, ids: &Vec<usize>, key: &String) -> (r: Option<usize>)
    requires
        forall|k: int| 0 <= k < ids@.len() ==> #[trigger] ids@[k] < defs@.len(),
    ensures
        r == find_short(defs_view(defs@), ids@, key@),
        r is Some ==> r->0 < defs.len(),
{
    let ghost dv = defs_view(defs@);
    let mut k: usize = 0;
    assert(ids@.subrange(0, ids.len() as int) =~= ids@);
    while k < ids.len()
        invariant
            0 <= k <= ids.len(),
            forall|j: int| 0 <= j < ids.len() ==> ids[j] < defs.len(),
            dv == defs_view(defs@),
            find_short(dv, ids@, key@) == find_short(dv, ids@.subrange(k as int, ids.len() as int), key@),
        decreases ids.len() - k,
    {
        let ghost rest = ids@.subrange(k as int, ids.len() as int);
        assert(rest.drop_first() =~= ids@.subrange(k + 1, ids.len() as int));
        let idx = ids[k];
        if short_is(&defs[idx].kind, key) {
            return Some(idx);
        }
        k = k + 1;
    }
    None
}


/// Once a rule is broken, the rest of the list does not change the error.
pub proof fn lemma_compile_err_stays(defs: Seq<DefV>, n: nat, m: nat)
    requires
        n <= m,
        compile_upto(defs, n) is Err,
    ensures
        compile_upto(defs, m) == compile_upto(defs, n),
    decreases m - n,
{
    if n < m {
        lemma_compile_err_stays(defs, n, (m - 1) as nat);
    }
}

fn invalid(m: String) -> (r: Result<ParseState, ParseError>)
    ensures
        r matches Err(ParseError::InvalidDefinitions(e)) && e@ == m@,
{
    Err(ParseError::InvalidDefinitions(m))
}

/// Sorts the descriptors by role and checks the rules between them, in
/// declaration order.
pub fn parse_definitions(defs: &Vec<ArgDef>) -> (r: Result<ParseState, ParseError>)
    ensures
        match compile(defs_view(defs@)) {
            Ok(t) => r matches Ok(st) && st@ == t && t.bounded(defs.len() as int),
            Err(m) => r matches Err(ParseError::InvalidDefinitions(e)) && e@ == m,
        },
{
    let ghost dv = defs_view(defs@);
    let mut t = ParseState {
        positional: Vec::new(),
        trail: None,
        options: Vec::new(),
        short_map: Vec::new(),
        subcommands: Vec::new(),
    };
    let mut i: usize = 0;
    while i < defs.len()
        invariant
            0 <= i <= defs.len(),
            dv == defs_view(defs@),
            compile_upto(dv, i as nat) == Ok::<TableV, Seq<char>>(t@),
            t@.bounded(i as int),
        decreases defs.len() - i,
    {
        let ghost t0 = t@;
        let d = &defs[i];
        assert(dv[i as int] == d@);
        let step: Result<(), String> = match &d.kind {
            ArgDefKind::Positional { .. } => {
                if t.subcommands.len() > 0 {
                    Err("Positional (+trail) and subcommand definitions cannot be used together.".to_owned())
                } else if t.positional_named(defs, &d.name) {
                    Err(quote("Positional '", d.name.as_str(), "' defined twice."))
                } else {
                    t.positional.push(i);
                    Ok(())
                }
            },
            ArgDefKind::Trail { .. } => {
                if t.subcommands.len() > 0 {
                    Err("Positional (+trail) and subcommand definitions cannot be used together.".to_owned())
                } else if t.trail.is_some() {
                    Err("Two trails defined.".to_owned())
                } else if t.positional_named(defs, &d.name) {
                    Err(quote("Positional '", d.name.as_str(), "' defined twice."))
                } else {
                    t.trail = Some(i);
                    Ok(())
                }
            },
            ArgDefKind::Subcommand => {
                if t.positional.len() > 0 || t.trail.is_some() {
                    Err("Positional (+trail) and subcommand definitions cannot be used together.".to_owned())
                } else if t.command_named(defs, &d.name) {
                    Err(quote("Subcommand '", d.name.as_str(), "' defined twice."))
                } else {
                    t.subcommands.push(i);
                    Ok(())
                }
            },
            ArgDefKind::Flag { short, .. }
            | ArgDefKind::Count { short, .. }
            | ArgDefKind::OptArg { short, .. }
            | ArgDefKind::Interrupt { short } => {
                assert(d@.kind.short() == opt_str_view(*short));
                let dup_short = match short {
                    Some(s) => if find_short_in(defs, &t.short_map, s).is_some() {
                        Some(quote("Short name '", s.as_str(), "' defined twice."))
                    } else {
                        None
                    },
                    None => None,
                };
                match dup_short {
                    Some(m) => Err(m),
                    None => {
                        if t.command_named(defs, &d.name) {
                            Err(quote("Option '", d.name.as_str(), "' defined twice."))
                        } else {
                            t.options.push(i);
                            if short.is_some() {
                                t.short_map.push(i);
                            }
                            Ok(())
                        }
                    },
                }
            },
        };
        match step {
            Ok(()) => {
                assert(compile_upto(dv, (i + 1) as nat) == add_def(dv, t0, i));
                assert(add_def(dv, t0, i) == Ok::<TableV, Seq<char>>(t@));
            },
            Err(m) => {
                assert(compile_upto(dv, (i + 1) as nat) == add_def(dv, t0, i));
                proof {
                    lemma_compile_err_stays(dv, (i + 1) as nat, dv.len());
                }
                return invalid(m);
            },
        }
        i = i + 1;
    }
    Ok(t)
}

impl ParseState {
    proof fn lemma_fields(&self)
        ensures
            self@.positional == self.positional@,
            self@.trail == self.trail,
            self@.options == self.options@,
            self@.shorts == self.short_map@,
            self@.subcommands == self.subcommands@,
    {
    }

    fn positional_named(&self, defs: &Vec<ArgDef>, name: &String) -> (r: bool)
        requires
            self@.bounded(defs.len() as int),
        ensures
            r == positional_named(defs_view(defs@), self@, name@),
    {
        proof {
            self.lemma_fields();
        }
        if find_named_in(defs, &self.positional, name).is_some() {
            return true;
        }
        match self.trail {
            Some(x) => defs[x].name == *name,
            None => false,
        }
    }

    fn command_named(&self, defs: &Vec<ArgDef>, name: &String) -> (r: bool)
        requires
            self@.bounded(defs.len() as int),
        ensures
            r == command_named(defs_view(defs@), self@, name@),
    {
        proof {
            self.lemma_fields();
        }
        let in_options = find_named_in(defs, &self.options, name).is_some();
        let in_subcommands = find_named_in(defs, &self.subcommands, name).is_some();
        in_options || in_subcommands
    }
}


/// The tokens as mathematical values.
pub open spec fn args_view(args: Seq<String>) -> Seq<Seq<char>> {
    args.map_values(|a: String| a@)
}

/// What the scan keeps between tokens.
pub struct ScanV {
    /// The descriptors, with the bindings written so far.
    pub defs: Seq<DefV>,
    /// How many positionals have been filled.
    pub next_pos: nat,
    /// Whether the trail has taken a token.
    pub trail_done: bool,
    /// For each descriptor, whether it has been given a value.
    pub given: Seq<bool>,
}

/// How a parse ends.
pub enum OutcomeV {
    /// Every token was consumed and every required argument given.
    Success,
    /// The subcommand named `name` was given; the tokens from `rest` on are its own.
    Dispatch { name: Seq<char>, rest: nat },
    /// The interrupt option with this name was given.
    Interrupted(Seq<char>),
    /// The tokens do not fit the descriptors, for this reason.
    Failed(Seq<char>),
    /// The descriptors break a rule, this one.
    Invalid(Seq<char>),
}

/// The scan after one token: go on at a later token, or stop.
pub enum StepV {
    Next(ScanV, nat),
    Stop(Seq<DefV>, OutcomeV),
}

pub open spec fn is_option_token(tok: Seq<char>) -> bool {
    tok.len() > 0 && tok[0] == '-'
}

/// The option that a dashed token names: after two dashes a long name, after
/// one a short alias.
pub open spec fn option_target(defs: Seq<DefV>, t: TableV, tok: Seq<char>) -> Option<usize> {
    if tok.len() >= 2 && tok[1] == '-' {
        find_named(defs, t.options, tok.subrange(2, tok.len() as int))
    } else {
        find_short(defs, t.shorts, tok.subrange(1, tok.len() as int))
    }
}

pub open spec fn unknown_option_message(tok: Seq<char>) -> Seq<char> {
    quoted("Unknown option: '"@, tok, "'"@)
}

pub open spec fn unexpected_message(tok: Seq<char>) -> Seq<char> {
    quoted("Unexpected argument '"@, tok, "'"@)
}

/// The descriptors with the kind, and so the binding, of descriptor `x` replaced.
pub open spec fn with_kind(defs: Seq<DefV>, x: usize, k: KindV) -> Seq<DefV> {
    defs.update(x as int, DefV { kind: k, ..defs[x as int] })
}

/// One step on the dashed token `args[i]`.
pub open spec fn option_step(t: TableV, s: ScanV, args: Seq<Seq<char>>, i: nat) -> StepV {
    let tok = args[i as int];
    match option_target(s.defs, t, tok) {
        None => StepV::Stop(s.defs, OutcomeV::Failed(unknown_option_message(tok))),
        Some(x) => {
            let d = s.defs[x as int];
            match d.kind {
                KindV::Flag { short, .. } => StepV::Next(
                    ScanV { defs: with_kind(s.defs, x, KindV::Flag { short, set: true }), ..s },
                    i + 1,
                ),
                KindV::Count { short, count } => StepV::Next(
                    ScanV {
                        defs: with_kind(s.defs, x, KindV::Count { short, count: (count + 1) as usize }),
                        ..s
                    },
                    i + 1,
                ),
                KindV::OptArg { short, kind, .. } => if s.given[x as int] {
                    StepV::Stop(s.defs, OutcomeV::Failed(quoted("Option '"@, d.name, "' given twice!"@)))
                } else if i + 1 >= args.len() {
                    StepV::Stop(
                        s.defs,
                        OutcomeV::Failed(quoted("Missing argument for option '"@, tok, "'"@)),
                    )
                } else {
                    match convert(kind, args[i + 1 as int]) {
                        None => StepV::Stop(s.defs, OutcomeV::Failed(conversion_message(args[i + 1 as int]))),
                        Some(v) => StepV::Next(
                            ScanV {
                                defs: with_kind(s.defs, x, KindV::OptArg { short, kind, value: Some(v) }),
                                given: s.given.update(x as int, true),
                                ..s
                            },
                            i + 2,
                        ),
                    }
                },
                KindV::Interrupt { .. } => StepV::Stop(s.defs, OutcomeV::Interrupted(d.name)),
                // A compiled table lists only option kinds among its options.
                _ => StepV::Stop(s.defs, OutcomeV::Failed(unknown_option_message(tok))),
            }
        },
    }
}

/// One step on the token `args[i]`, which has no dash: the next positional, a
/// subcommand, or the trail takes it.
pub open spec fn free_step(t: TableV, s: ScanV, args: Seq<Seq<char>>, i: nat) -> StepV {
    let tok = args[i as int];
    if s.next_pos < t.positional.len() {
        let x = t.positional[s.next_pos as int];
        match s.defs[x as int].kind {
            KindV::Positional { target } => match convert(target.kind(), tok) {
                None => StepV::Stop(s.defs, OutcomeV::Failed(conversion_message(tok))),
                Some(v) => StepV::Next(
                    ScanV {
                        defs: with_kind(s.defs, x, KindV::Positional { target: v }),
                        next_pos: s.next_pos + 1,
                        ..s
                    },
                    i + 1,
                ),
            },
            // A compiled table lists only positionals among its positionals.
            _ => StepV::Stop(s.defs, OutcomeV::Failed(unexpected_message(tok))),
        }
    } else if t.subcommands.len() > 0 {
        match find_named(s.defs, t.subcommands, tok) {
            Some(x) => StepV::Stop(s.defs, OutcomeV::Dispatch { name: s.defs[x as int].name, rest: i + 1 }),
            None => StepV::Stop(
                s.defs,
                OutcomeV::Failed(quoted("Unknown subcommand: '"@, tok, "'"@)),
            ),
        }
    } else if t.trail is Some {
        let x = t.trail->0;
        match s.defs[x as int].kind {
            KindV::Trail { optional, kind, values } => match convert(kind, tok) {
                None => StepV::Stop(s.defs, OutcomeV::Failed(conversion_message(tok))),
                Some(v) => StepV::Next(
                    ScanV {
                        defs: with_kind(s.defs, x, KindV::Trail { optional, kind, values: values.push(v) }),
                        trail_done: true,
                        ..s
                    },
                    i + 1,
                ),
            },
            _ => StepV::Stop(s.defs, OutcomeV::Failed(unexpected_message(tok))),
        }
    } else {
        StepV::Stop(s.defs, OutcomeV::Failed(unexpected_message(tok)))
    }
}

pub open spec fn step(t: TableV, s: ScanV, args: Seq<Seq<char>>, i: nat) -> StepV {
    if is_option_token(args[i as int]) {
        option_step(t, s, args, i)
    } else {
        free_step(t, s, args, i)
    }
}

/// How the scan ends once every token is consumed.
pub open spec fn finish(t: TableV, s: ScanV) -> OutcomeV {
    if s.next_pos < t.positional.len() {
        OutcomeV::Failed(
            quoted(
                "Missing positional argument '"@,
                s.defs[t.positional[s.next_pos as int] as int].name,
                "'"@,
            ),
        )
    } else if t.trail is Some {
        let d = s.defs[t.trail->0 as int];
        match d.kind {
            KindV::Trail { optional, .. } => if !optional && !s.trail_done {
                OutcomeV::Failed(quoted("Expected at least one trailing argument for '"@, d.name, "'"@))
            } else {
                OutcomeV::Success
            },
            _ => OutcomeV::Success,
        }
    } else {
        OutcomeV::Success
    }
}

/// The scan from token `i` on: the bindings it leaves and how it ends.
pub open spec fn scan(t: TableV, s: ScanV, args: Seq<Seq<char>>, i: nat) -> (Seq<DefV>, OutcomeV)
    decreases args.len() - i,
{
    if i >= args.len() {
        (s.defs, finish(t, s))
    } else {
        match step(t, s, args, i) {
            StepV::Next(s2, j) => if i < j <= args.len() {
                scan(t, s2, args, j)
            } else {
                (s2.defs, OutcomeV::Success)
            },
            StepV::Stop(d, o) => (d, o),
        }
    }
}

pub open spec fn initial_scan(defs: Seq<DefV>) -> ScanV {
    ScanV { defs, next_pos: 0, trail_done: false, given: Seq::new(defs.len(), |k: int| false) }
}

/// A parse of `args` against `defs`: the bindings it leaves and how it ends.
pub open spec fn resolve(defs: Seq<DefV>, args: Seq<Seq<char>>) -> (Seq<DefV>, OutcomeV) {
    match compile(defs) {
        Err(m) => (defs, OutcomeV::Invalid(m)),
        Ok(t) => scan(t, initial_scan(defs), args, 0),
    }
}

pub open spec fn count_room(d: DefV, k: int) -> bool {
    match d.kind {
        KindV::Count { count, .. } => count + k <= usize::MAX,
        _ => true,
    }
}

/// Every counter can take `k` more increments.
pub open spec fn counts_fit(defs: Seq<DefV>, k: int) -> bool {
    forall|j: int| 0 <= j < defs.len() ==> count_room(#[trigger] defs[j], k)
}

/// What a parse that did not fail ends with.
#[derive(Debug, PartialEq, Eq)]
pub enum Resolved {
    /// Every token was consumed and every required argument given.
    Complete,
    /// A subcommand was named: its handler takes the tokens after its name.
    Subcommand { name: String, rest: Vec<String> },
}

/// Whether an executable result is the given outcome.
pub open spec fn result_is(
    r: Result<Resolved, ParseError>,
    o: OutcomeV,
    defs: Seq<DefV>,
    args: Seq<Seq<char>>,
) -> bool {
    match o {
        OutcomeV::Success => r matches Ok(Resolved::Complete),
        OutcomeV::Dispatch { name, rest } => r matches Ok(Resolved::Subcommand { name: n, rest: v })
            && n@ == name && args_view(v@) == args.subrange(rest as int, args.len() as int),
        OutcomeV::Interrupted(name) => r matches Err(ParseError::Interrupted(n)) && n@ == name,
        OutcomeV::Failed(m) => r matches Err(ParseError::ParseFailed(e, h)) && e@ == m && h@
            == help_of(defs),
        OutcomeV::Invalid(m) => r matches Err(ParseError::InvalidDefinitions(e)) && e@ == m,
    }
}

/// One step of the scan, as the executable code reports it.
enum Step {
    Next(usize),
    Fail(String),
    Interrupt(String),
    Dispatch(String),
}

spec fn stop_is(r: Step, o: OutcomeV) -> bool {
    match o {
        OutcomeV::Failed(m) => r matches Step::Fail(e) && e@ == m,
        OutcomeV::Interrupted(n) => r matches Step::Interrupt(e) && e@ == n,
        OutcomeV::Dispatch { name, .. } => r matches Step::Dispatch(e) && e@ == name,
        _ => false,
    }
}

fn starts_with_dash(tok: &str, at: usize) -> (r: bool)
    ensures
        r == (tok@.len() > at && tok@[at as int] == '-'),
{
    if tok.unicode_len() > at {
        tok.get_char(at) == '-'
    } else {
        false
    }
}

fn tail_of(args: &Vec<String>, from: usize) -> (r: Vec<String>)
    requires
        from <= args.len(),
    ensures
        args_view(r@) == args_view(args@).subrange(from as int, args.len() as int),
{
    let mut r: Vec<String> = Vec::new();
    let mut k = from;
    while k < args.len()
        invariant
            from <= k <= args.len(),
            args_view(r@) == args_view(args@).subrange(from as int, k as int),
        decreases args.len() - k,
    {
        let ghost r0 = r@;
        let a = args[k].clone();
        r.push(a);
        assert(r@ == r0.push(a));
        assert(args_view(r@) =~= args_view(r0).push(a@));
        assert(args_view(args@).subrange(from as int, k + 1) =~= args_view(args@).subrange(
            from as int,
            k as int,
        ).push(args@[k as int]@));
        k = k + 1;
    }
    r
}

impl ParseState {
    /// The option that a dashed token names.
    fn get_target(&self, defs: &Vec<ArgDef>, option: &str) -> (r: Option<usize>)
        requires
            self@.bounded(defs.len() as int),
            is_option_token(option@),
        ensures
            r == option_target(defs_view(defs@), self@, option@),
            r is Some ==> r->0 < defs.len(),
    {
        proof {
            self.lemma_fields();
        }
        let n = option.unicode_len();
        if starts_with_dash(option, 1) {
            let key = option.substring_char(2, n).to_owned();
            find_named_in(defs, &self.options, &key)
        } else {
            let key = option.substring_char(1, n).to_owned();
            find_short_in(defs, &self.short_map, &key)
        }
    }

    /// Handles the dashed token `args[i]`.
    fn read_option(
        &self,
        defs: &mut Vec<ArgDef>,
        args: &Vec<String>,
        i: usize,
        given: &mut Vec<bool>,
        Ghost(s): Ghost<ScanV>,
    ) -> (r: Step)
        requires
            self@.bounded(old(defs).len() as int),
            i < args.len(),
            is_option_token(args[i as int]@),
            old(given).len() == old(defs).len(),
            s.defs == defs_view(old(defs)@),
            s.given == old(given)@,
            counts_fit(s.defs, args.len() - i),
        ensures
            final(defs).len() == old(defs).len(),
            final(given).len() == old(given).len(),
            match option_step(self@, s, args_view(args@), i as nat) {
                StepV::Next(s2, j) => r == Step::Next(j as usize) && i < j <= args.len()
                    && defs_view(final(defs)@) == s2.defs && final(given)@ == s2.given
                    && s2.next_pos == s.next_pos && s2.trail_done == s.trail_done
                    && counts_fit(s2.defs, args.len() - j),
                StepV::Stop(d, o) => defs_view(final(defs)@) == d && stop_is(r, o),
            },
    {
        let ghost av = args_view(args@);
        assert(av[i as int] == args[i as int]@);
        let tok = args[i].as_str();
        let x = match self.get_target(defs, tok) {
            Some(x) => x,
            None => {
                return Step::Fail(quote("Unknown option: '", tok, "'"));
            },
        };
        assert(s.defs[x as int] == defs[x as int]@);
        match &defs[x].kind {
            ArgDefKind::Interrupt { .. } => {
                return Step::Interrupt(defs[x].name.clone());
            },
            ArgDefKind::OptArg { .. } => {
                if given[x] {
                    return Step::Fail(quote("Option '", defs[x].name.as_str(), "' given twice!"));
                }
                if i + 1 >= args.len() {
                    return Step::Fail(quote("Missing argument for option '", tok, "'"));
                }
            },
            ArgDefKind::Flag { .. } | ArgDefKind::Count { .. } => {},
            _ => {
                return Step::Fail(quote("Unknown option: '", tok, "'"));
            },
        }
        let ghost old_defs = defs@;
        match &mut defs[x].kind {
            ArgDefKind::Flag { target, .. } => {
                *target = true;
                assert(defs_view(defs@) =~= option_step(self@, s, av, i as nat)->Next_0.defs);
                Step::Next(i + 1)
            },
            ArgDefKind::Count { target, .. } => {
                assert(count_room(s.defs[x as int], args.len() - i));
                *target = *target + 1;
                assert(defs_view(defs@) =~= option_step(self@, s, av, i as nat)->Next_0.defs);
                Step::Next(i + 1)
            },
            ArgDefKind::OptArg { target, .. } => {
                assert(av[i + 1] == args[i + 1]@);
                match target.parse(args[i + 1].as_str()) {
                    Ok(()) => {
                        given.set(x, true);
                        assert(defs_view(defs@) =~= option_step(self@, s, av, i as nat)->Next_0.defs);
                        Step::Next(i + 2)
                    },
                    Err(m) => {
                        assert(defs_view(defs@) =~= s.defs);
                        Step::Fail(m)
                    },
                }
            },
            _ => Step::Fail(quote("Unknown option: '", tok, "'")),
        }
    }
}


impl ParseState {
    /// Handles the token `args[i]`, which has no dash.
    fn read_free(
        &self,
        defs: &mut Vec<ArgDef>,
        args: &Vec<String>,
        i: usize,
        next_pos: &mut usize,
        trail_done: &mut bool,
        Ghost(s): Ghost<ScanV>,
    ) -> (r: Step)
        requires
            self@.bounded(old(defs).len() as int),
            i < args.len(),
            !is_option_token(args[i as int]@),
            s.defs == defs_view(old(defs)@),
            s.next_pos == *old(next_pos),
            s.trail_done == *old(trail_done),
            *old(next_pos) <= self@.positional.len(),
            counts_fit(s.defs, args.len() - i),
        ensures
            final(defs).len() == old(defs).len(),
            *final(next_pos) <= self@.positional.len(),
            match free_step(self@, s, args_view(args@), i as nat) {
                StepV::Next(s2, j) => r == Step::Next(j as usize) && i < j <= args.len()
                    && defs_view(final(defs)@) == s2.defs && s2.given == s.given
                    && s2.next_pos == *final(next_pos) && s2.trail_done == *final(trail_done)
                    && counts_fit(s2.defs, args.len() - j),
                StepV::Stop(d, o) => defs_view(final(defs)@) == d && stop_is(r, o),
            },
    {
        proof {
            self.lemma_fields();
        }
        let ghost av = args_view(args@);
        assert(av[i as int] == args[i as int]@);
        let tok = args[i].as_str();
        if *next_pos < self.positional.len() {
            let x = self.positional[*next_pos];
            assert(s.defs[x as int] == defs[x as int]@);
            match &mut defs[x].kind {
                ArgDefKind::Positional { target } => match target.parse(tok) {
                    Ok(()) => {
                        *next_pos = *next_pos + 1;
                        assert(defs_view(defs@) =~= free_step(self@, s, av, i as nat)->Next_0.defs);
                        Step::Next(i + 1)
                    },
                    Err(m) => {
                        assert(defs_view(defs@) =~= s.defs);
                        Step::Fail(m)
                    },
                },
                _ => Step::Fail(quote("Unexpected argument '", tok, "'")),
            }
        } else if self.subcommands.len() > 0 {
            let key = tok.to_owned();
            match find_named_in(defs, &self.subcommands, &key) {
                Some(x) => {
                    assert(s.defs[x as int] == defs[x as int]@);
                    Step::Dispatch(defs[x].name.clone())
                },
                None => Step::Fail(quote("Unknown subcommand: '", tok, "'")),
            }
        } else {
            match self.trail {
                Some(x) => {
                    assert(s.defs[x as int] == defs[x as int]@);
                    match &mut defs[x].kind {
                        ArgDefKind::Trail { target, .. } => match target.parse_and_add(tok) {
                            Ok(()) => {
                                *trail_done = true;
                                assert(defs_view(defs@) =~= free_step(self@, s, av, i as nat)->Next_0.defs);
                                Step::Next(i + 1)
                            },
                            Err(m) => {
                                assert(defs_view(defs@) =~= s.defs);
                                Step::Fail(m)
                            },
                        },
                        _ => Step::Fail(quote("Unexpected argument '", tok, "'")),
                    }
                },
                None => Step::Fail(quote("Unexpected argument '", tok, "'")),
            }
        }
    }

    /// The failure, if any, once every token is consumed.
    fn finish(&self, defs: &Vec<ArgDef>, next_pos: usize, trail_done: bool, Ghost(s): Ghost<ScanV>) -> (r: Option<String>)
        requires
            self@.bounded(defs.len() as int),
            s.defs == defs_view(defs@),
            s.next_pos == next_pos,
            s.trail_done == trail_done,
        ensures
            match finish(self@, s) {
                OutcomeV::Failed(m) => r matches Some(e) && e@ == m,
                _ => r is None,
            },
    {
        proof {
            self.lemma_fields();
        }
        if next_pos < self.positional.len() {
            let x = self.positional[next_pos];
            assert(s.defs[x as int] == defs[x as int]@);
            return Some(quote("Missing positional argument '", defs[x].name.as_str(), "'"));
        }
        match self.trail {
            Some(x) => {
                assert(s.defs[x as int] == defs[x as int]@);
                match &defs[x].kind {
                    ArgDefKind::Trail { optional, .. } => if !*optional && !trail_done {
                        Some(
                            quote(
                                "Expected at least one trailing argument for '",
                                defs[x].name.as_str(),
                                "'",
                            ),
                        )
                    } else {
                        None
                    },
                    _ => None,
                }
            },
            None => None,
        }
    }
}

/// Parses the tokens against the descriptors and updates the bindings that the
/// descriptors hold.
///
/// The descriptors are checked first; then each token is read in order. A
/// dashed token names an option; any other fills the next positional, names a
/// subcommand, or joins the trail.
pub fn parse(args: &Vec<String>, definitions: &mut Vec<ArgDef>) -> (r: Result<Resolved, ParseError>)
    requires
        counts_fit(defs_view(old(definitions)@), args.len() as int),
    ensures
        defs_view(final(definitions)@) == resolve(defs_view(old(definitions)@), args_view(args@)).0,
        result_is(
            r,
            resolve(defs_view(old(definitions)@), args_view(args@)).1,
            defs_view(old(definitions)@),
            args_view(args@),
        ),
{
    let ghost dv0 = defs_view(definitions@);
    let ghost av = args_view(args@);
    let help = Help::from_definitions(definitions);
    let table = match parse_definitions(definitions) {
        Ok(t) => t,
        Err(e) => {
            return Err(e);
        },
    };
    let ghost t = table@;
    let mut given: Vec<bool> = vec![false; definitions.len()];
    assert(given@ =~= initial_scan(dv0).given);
    let mut next_pos: usize = 0;
    let mut trail_done = false;
    let mut i: usize = 0;
    while i < args.len()
        invariant
            0 <= i <= args.len(),
            av == args_view(args@),
            dv0 == defs_view(old(definitions)@),
            table@ == t,
            t.bounded(dv0.len() as int),
            definitions.len() == dv0.len(),
            given.len() == dv0.len(),
            next_pos <= t.positional.len(),
            counts_fit(defs_view(definitions@), args.len() - i),
            help@ == help_of(dv0),
            scan(
                t,
                ScanV { defs: defs_view(definitions@), next_pos: next_pos as nat, trail_done, given: given@ },
                av,
                i as nat,
            ) == resolve(dv0, av),
        decreases args.len() - i,
    {
        let ghost s = ScanV {
            defs: defs_view(definitions@),
            next_pos: next_pos as nat,
            trail_done,
            given: given@,
        };
        assert(av[i as int] == args[i as int]@);
        let st = if starts_with_dash(args[i].as_str(), 0) {
            table.read_option(definitions, args, i, &mut given, Ghost(s))
        } else {
            table.read_free(definitions, args, i, &mut next_pos, &mut trail_done, Ghost(s))
        };
        match st {
            Step::Next(j) => {
                i = j;
            },
            Step::Fail(m) => {
                return Err(ParseError::ParseFailed(m, help));
            },
            Step::Interrupt(n) => {
                return Err(ParseError::Interrupted(n));
            },
            Step::Dispatch(n) => {
                return Ok(Resolved::Subcommand { name: n, rest: tail_of(args, i + 1) });
            },
        }
    }
    let ghost s = ScanV {
        defs: defs_view(definitions@),
        next_pos: next_pos as nat,
        trail_done,
        given: given@,
    };
    match table.finish(definitions, next_pos, trail_done, Ghost(s)) {
        Some(m) => Err(ParseError::ParseFailed(m, help)),
        None => Ok(Resolved::Complete),
    }
}

} // verus!
