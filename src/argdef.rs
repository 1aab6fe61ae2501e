//! Argument descriptors and the bindings they write into.
use vstd::prelude::*;

verus! {

/// The type of value that a binding accepts.
#[derive(Clone, Copy, Debug, PartialEq, Eq, Structural)]
pub enum ValueKind {
    /// Any string, taken as it is.
    Text,
    /// A decimal `u64`.
    Unsigned,
}

/// A value read from an argument.
#[derive(Clone, Debug, PartialEq, Eq)]
pub enum Scalar {
    Text(String),
    Unsigned(u64),
}

/// The mathematical value of a [`Scalar`].
pub enum ScalarV {
    Text(Seq<char>),
    Unsigned(u64),
}

impl ScalarV {
    pub open spec fn kind(self) -> ValueKind {
        match self {
            ScalarV::Text(_) => ValueKind::Text,
            ScalarV::Unsigned(_) => ValueKind::Unsigned,
        }
    }
}

impl View for Scalar {
    type V = ScalarV;

    open spec fn view(&self) -> ScalarV {
        match self {
            Scalar::Text(s) => ScalarV::Text(s@),
            Scalar::Unsigned(n) => ScalarV::Unsigned(*n),
        }
    }
}

pub open spec fn is_decimal_digit(c: char) -> bool {
    '0' <= c <= '9'
}

/// The number written by a string of decimal digits, most significant first.
pub open spec fn decimal_value(s: Seq<char>) -> nat
    decreases s.len(),
{
    if s.len() == 0 {
        0
    } else {
        decimal_value(s.drop_last()) * 10 + (s.last() as nat - '0' as nat) as nat
    }
}

/// The `u64` that a string spells: an optional `+`, then one or more decimal
/// digits, whose value fits.
pub open spec fn unsigned_of(s: Seq<char>) -> Option<u64> {
    let d = if s.len() > 0 && s[0] == '+' {
        s.drop_first()
    } else {
        s
    };
    if d.len() > 0 && (forall|i: int| 0 <= i < d.len() ==> is_decimal_digit(#[trigger] d[i]))
        && decimal_value(d) <= u64::MAX {
        Some(decimal_value(d) as u64)
    } else {
        None
    }
}

/// The value of the given kind that a token spells, if any.
pub open spec fn convert(kind: ValueKind, s: Seq<char>) -> Option<ScalarV> {
    match kind {
        ValueKind::Text => Some(ScalarV::Text(s)),
        ValueKind::Unsigned => match unsigned_of(s) {
            Some(n) => Some(ScalarV::Unsigned(n)),
            None => None,
        },
    }
}

/// The message of a failed conversion.
pub open spec fn conversion_message(s: Seq<char>) -> Seq<char> {
    "Could not parse and convert '"@ + s + "'"@
}

/// Relies on `u64::from_str`: an optional `+` followed by decimal digits only,
/// rejected when the value does not fit.
#[verifier::external_body]
fn parse_unsigned(s: &str) -> (r: Option<u64>)
    ensures
        r == unsigned_of(s@),
{
    s.parse::<u64>().ok()
}

fn conversion_error(value: &str) -> (r: String)
    ensures
        r@ == conversion_message(value@),
{
    let mut m = "Could not parse and convert '".to_owned();
    m.append(value);
    m.append("'");
    m
}

/// Reads a value of the given kind from a token.
pub fn convert_value(kind: ValueKind, value: &str) -> (r: Result<Scalar, String>)
    ensures
        match convert(kind, value@) {
            Some(v) => r matches Ok(x) && x@ == v,
            None => r matches Err(m) && m@ == conversion_message(value@),
        },
{
    match kind {
        ValueKind::Text => Ok(Scalar::Text(value.to_owned())),
        ValueKind::Unsigned => match parse_unsigned(value) {
            Some(n) => Ok(Scalar::Unsigned(n)),
            None => Err(conversion_error(value)),
        },
    }
}

impl Scalar {
    pub fn kind(&self) -> (r: ValueKind)
        ensures
            r == self@.kind(),
    {
        match self {
            Scalar::Text(_) => ValueKind::Text,
            Scalar::Unsigned(_) => ValueKind::Unsigned,
        }
    }
}


/// A binding that holds one value, overwritten by each successful read.
#[derive(Clone, Debug)]
pub struct SingleTarget {
    pub value: Scalar,
}

impl View for SingleTarget {
    type V = ScalarV;

    open spec fn view(&self) -> ScalarV {
        self.value@
    }
}

impl SingleTarget {
    /// Parses the value as the kind of the value held, and stores it.
    pub fn parse(&mut self, value: &str) -> (r: Result<(), String>)
        ensures
            match convert(old(self)@.kind(), value@) {
                Some(v) => r is Ok && final(self)@ == v,
                None => r matches Err(m) && m@ == conversion_message(value@) && final(self)@
                    == old(self)@,
            },
    {
        match convert_value(self.value.kind(), value) {
            Ok(v) => {
                self.value = v;
                Ok(())
            },
            Err(m) => Err(m),
        }
    }
}

/// A binding that holds no value until an argument sets one.
#[derive(Clone, Debug)]
pub struct OptionTarget {
    pub kind: ValueKind,
    pub value: Option<Scalar>,
}

pub open spec fn opt_scalar_view(o: Option<Scalar>) -> Option<ScalarV> {
    match o {
        Some(v) => Some(v@),
        None => None,
    }
}

impl View for OptionTarget {
    type V = (ValueKind, Option<ScalarV>);

    open spec fn view(&self) -> (ValueKind, Option<ScalarV>) {
        (self.kind, opt_scalar_view(self.value))
    }
}

impl OptionTarget {
    /// Parses the value as the target's kind, and stores it as present.
    pub fn parse(&mut self, value: &str) -> (r: Result<(), String>)
        ensures
            match convert(old(self)@.0, value@) {
                Some(v) => r is Ok && final(self)@ == (old(self)@.0, Some(v)),
                None => r matches Err(m) && m@ == conversion_message(value@) && final(self)@
                    == old(self)@,
            },
    {
        match convert_value(self.kind, value) {
            Ok(v) => {
                self.value = Some(v);
                Ok(())
            },
            Err(m) => Err(m),
        }
    }
}

/// A binding that collects every value read into it, in order.
#[derive(Clone, Debug)]
pub struct CollectionTarget {
    pub kind: ValueKind,
    pub values: Vec<Scalar>,
}

impl View for CollectionTarget {
    type V = (ValueKind, Seq<ScalarV>);

    open spec fn view(&self) -> (ValueKind, Seq<ScalarV>) {
        (self.kind, self.values@.map_values(|v: Scalar| v@))
    }
}

impl CollectionTarget {
    /// Parses the value as the target's kind, and appends it.
    pub fn parse_and_add(&mut self, value: &str) -> (r: Result<(), String>)
        ensures
            match convert(old(self)@.0, value@) {
                Some(v) => r is Ok && final(self)@ == (old(self)@.0, old(self)@.1.push(v)),
                None => r matches Err(m) && m@ == conversion_message(value@) && final(self)@
                    == old(self)@,
            },
    {
        match convert_value(self.kind, value) {
            Ok(v) => {
                self.values.push(v);
                assert(self.values@.map_values(|v: Scalar| v@) =~= old(self)@.1.push(v@));
                Ok(())
            },
            Err(m) => Err(m),
        }
    }
}

/// The description of an expected argument.
#[derive(Debug)]
pub struct ArgDef {
    pub name: String,
    pub kind: ArgDefKind,
    pub help_desc: Option<String>,
}

/// The shape of an argument, with the binding it writes into.
#[derive(Debug)]
pub enum ArgDefKind {
    Positional { target: SingleTarget },
    Subcommand,
    Trail { optional: bool, target: CollectionTarget },
    Flag { short: Option<String>, target: bool },
    Count { short: Option<String>, target: usize },
    OptArg { short: Option<String>, target: OptionTarget },
    Interrupt { short: Option<String> },
}

/// The mathematical value of an [`ArgDefKind`].
pub enum KindV {
    Positional { target: ScalarV },
    Subcommand,
    Trail { optional: bool, kind: ValueKind, values: Seq<ScalarV> },
    Flag { short: Option<Seq<char>>, set: bool },
    Count { short: Option<Seq<char>>, count: usize },
    OptArg { short: Option<Seq<char>>, kind: ValueKind, value: Option<ScalarV> },
    Interrupt { short: Option<Seq<char>> },
}

/// The mathematical value of an [`ArgDef`].
pub struct DefV {
    pub name: Seq<char>,
    pub kind: KindV,
    pub help: Option<Seq<char>>,
}

pub open spec fn opt_str_view(o: Option<String>) -> Option<Seq<char>> {
    match o {
        Some(s) => Some(s@),
        None => None,
    }
}

impl View for ArgDefKind {
    type V = KindV;

    open spec fn view(&self) -> KindV {
        match self {
            ArgDefKind::Positional { target } => KindV::Positional { target: target@ },
            ArgDefKind::Subcommand => KindV::Subcommand,
            ArgDefKind::Trail { optional, target } => KindV::Trail {
                optional: *optional,
                kind: target@.0,
                values: target@.1,
            },
            ArgDefKind::Flag { short, target } => KindV::Flag {
                short: opt_str_view(*short),
                set: *target,
            },
            ArgDefKind::Count { short, target } => KindV::Count {
                short: opt_str_view(*short),
                count: *target,
            },
            ArgDefKind::OptArg { short, target } => KindV::OptArg {
                short: opt_str_view(*short),
                kind: target@.0,
                value: target@.1,
            },
            ArgDefKind::Interrupt { short } => KindV::Interrupt { short: opt_str_view(*short) },
        }
    }
}

impl View for ArgDef {
    type V = DefV;

    open spec fn view(&self) -> DefV {
        DefV { name: self.name@, kind: self.kind@, help: opt_str_view(self.help_desc) }
    }
}

impl KindV {
    /// Whether this kind is named on the command line with dashes.
    pub open spec fn is_option(self) -> bool {
        self is Flag || self is Count || self is OptArg || self is Interrupt
    }

    /// Whether this kind takes free tokens by position.
    pub open spec fn is_positional(self) -> bool {
        self is Positional || self is Trail
    }

    /// The short alias, for the kinds that can have one.
    pub open spec fn short(self) -> Option<Seq<char>> {
        match self {
            KindV::Flag { short, .. } => short,
            KindV::Count { short, .. } => short,
            KindV::OptArg { short, .. } => short,
            KindV::Interrupt { short } => short,
            _ => None,
        }
    }

    /// The same kind with its short alias replaced.
    pub open spec fn with_short(self, s: Option<Seq<char>>) -> KindV {
        match self {
            KindV::Flag { set, .. } => KindV::Flag { short: s, set },
            KindV::Count { count, .. } => KindV::Count { short: s, count },
            KindV::OptArg { kind, value, .. } => KindV::OptArg { short: s, kind, value },
            KindV::Interrupt { .. } => KindV::Interrupt { short: s },
            _ => self,
        }
    }
}

impl ArgDef {
    fn new(name: &str, kind: ArgDefKind) -> (r: ArgDef)
        ensures
            r@ == (DefV { name: name@, kind: kind@, help: None }),
    {
        ArgDef { name: name.to_owned(), kind, help_desc: None }
    }

    /// Describes a required positional argument.
    pub fn pos(name: &str, target: SingleTarget) -> (r: ArgDef)
        ensures
            r@ == (DefV { name: name@, kind: KindV::Positional { target: target@ }, help: None }),
    {
        ArgDef::new(name, ArgDefKind::Positional { target })
    }

    /// Describes the trail: the free tokens left once every positional is
    /// filled. A trail that is not optional needs at least one.
    pub fn trail(name: &str, optional: bool, target: CollectionTarget) -> (r: ArgDef)
        ensures
            r@ == (DefV {
                name: name@,
                kind: KindV::Trail { optional, kind: target@.0, values: target@.1 },
                help: None,
            }),
    {
        ArgDef::new(name, ArgDefKind::Trail { optional, target })
    }

    /// Describes a subcommand, which takes every token after its name.
    pub fn cmd(name: &str) -> (r: ArgDef)
        ensures
            r@ == (DefV { name: name@, kind: KindV::Subcommand, help: None }),
    {
        ArgDef::new(name, ArgDefKind::Subcommand)
    }

    /// Describes an option that stops the parse when given, such as `--help`.
    pub fn interrupt(name: &str) -> (r: ArgDef)
        ensures
            r@ == (DefV { name: name@, kind: KindV::Interrupt { short: None }, help: None }),
    {
        ArgDef::new(name, ArgDefKind::Interrupt { short: None })
    }

    /// Describes an option that takes the next token as its value.
    pub fn option(name: &str, target: OptionTarget) -> (r: ArgDef)
        ensures
            r@ == (DefV {
                name: name@,
                kind: KindV::OptArg { short: None, kind: target@.0, value: target@.1 },
                help: None,
            }),
    {
        ArgDef::new(name, ArgDefKind::OptArg { short: None, target })
    }

    /// Describes a flag, set to true when given.
    pub fn flag(name: &str, target: bool) -> (r: ArgDef)
        ensures
            r@ == (DefV { name: name@, kind: KindV::Flag { short: None, set: target }, help: None }),
    {
        ArgDef::new(name, ArgDefKind::Flag { short: None, target })
    }

    /// Describes a counter, incremented each time it is given.
    pub fn count(name: &str, target: usize) -> (r: ArgDef)
        ensures
            r@ == (DefV {
                name: name@,
                kind: KindV::Count { short: None, count: target },
                help: None,
            }),
    {
        ArgDef::new(name, ArgDefKind::Count { short: None, target })
    }

    /// Adds a short alias, like `h` for `-h`. Only options can have one.
    pub fn short(self, short: &str) -> (r: ArgDef)
        requires
            self@.kind.is_option(),
        ensures
            r@ == (DefV { kind: self@.kind.with_short(Some(short@)), ..self@ }),
    {
        let ArgDef { name, kind, help_desc } = self;
        let s = Some(short.to_owned());
        let kind = match kind {
            ArgDefKind::Flag { target, .. } => ArgDefKind::Flag { short: s, target },
            ArgDefKind::Count { target, .. } => ArgDefKind::Count { short: s, target },
            ArgDefKind::OptArg { target, .. } => ArgDefKind::OptArg { short: s, target },
            ArgDefKind::Interrupt { .. } => ArgDefKind::Interrupt { short: s },
            other => other,
        };
        ArgDef { name, kind, help_desc }
    }

    /// Adds a help description.
    pub fn help(self, help: &str) -> (r: ArgDef)
        ensures
            r@ == (DefV { help: Some(help@), ..self@ }),
    {
        ArgDef { help_desc: Some(help.to_owned()), ..self }
    }
}

} // verus!
