//! The read-only projection of the descriptors used for usage and help text.
use vstd::prelude::*;
use crate::argdef::{ArgDef, ArgDefKind, DefV, KindV, opt_str_view};
use crate::parse::defs_view;
use crate::text::{stripped_lines, strings_view, trim_and_strip_lines, upper_of, uppercase};

verus! {

/// Describes what kind of option is expected.
#[derive(Clone, Copy, Debug, PartialEq, Eq, Structural)]
pub enum HelpOptKind {
    /// A flag. `./bin --verbose` => `true`
    Flag,
    /// A count. `./bin -v -v -v -v` => `4`
    Count,
    /// An option with a value. `./bin --eat-cake yes`
    OptArg,
    /// An interrupt. `./bin --help`
    Interrupt,
}

/// A collection of descriptions of the defined arguments.
#[derive(Debug)]
pub struct Help {
    /// Positional arguments: name and help text.
    pub positional: Vec<(String, Option<String>)>,
    /// The trail: name, whether it is optional, and help text.
    pub trail: Option<(String, bool, Option<String>)>,
    /// Subcommands: name and help text.
    pub subcommands: Vec<(String, Option<String>)>,
    /// Options: name, short alias, kind and help text.
    pub options: Vec<(String, Option<String>, HelpOptKind, Option<String>)>,
    /// Whether an interrupt named `help` is defined.
    pub help_defined: bool,
}

/// The mathematical value of a [`Help`].
pub struct HelpV {
    pub positional: Seq<(Seq<char>, Option<Seq<char>>)>,
    pub trail: Option<(Seq<char>, bool, Option<Seq<char>>)>,
    pub subcommands: Seq<(Seq<char>, Option<Seq<char>>)>,
    pub options: Seq<(Seq<char>, Option<Seq<char>>, HelpOptKind, Option<Seq<char>>)>,
    pub help_defined: bool,
}

pub open spec fn named_view(e: (String, Option<String>)) -> (Seq<char>, Option<Seq<char>>) {
    (e.0@, opt_str_view(e.1))
}

pub open spec fn option_view(e: (String, Option<String>, HelpOptKind, Option<String>)) -> (
    Seq<char>,
    Option<Seq<char>>,
    HelpOptKind,
    Option<Seq<char>>,
) {
    (e.0@, opt_str_view(e.1), e.2, opt_str_view(e.3))
}

impl View for Help {
    type V = HelpV;

    open spec fn view(&self) -> HelpV {
        HelpV {
            positional: self.positional@.map_values(|e: (String, Option<String>)| named_view(e)),
            trail: match self.trail {
                Some(e) => Some((e.0@, e.1, opt_str_view(e.2))),
                None => None,
            },
            subcommands: self.subcommands@.map_values(|e: (String, Option<String>)| named_view(e)),
            options: self.options@.map_values(
                |e: (String, Option<String>, HelpOptKind, Option<String>)| option_view(e),
            ),
            help_defined: self.help_defined,
        }
    }
}

impl HelpV {
    pub open spec fn empty() -> HelpV {
        HelpV {
            positional: Seq::empty(),
            trail: None,
            subcommands: Seq::empty(),
            options: Seq::empty(),
            help_defined: false,
        }
    }

    /// Adds the description of one more descriptor.
    pub open spec fn add(self, d: DefV) -> HelpV {
        match d.kind {
            KindV::Positional { .. } => HelpV {
                positional: self.positional.push((d.name, d.help)),
                ..self
            },
            KindV::Trail { optional, .. } => HelpV { trail: Some((d.name, optional, d.help)), ..self },
            KindV::Subcommand => HelpV {
                subcommands: self.subcommands.push((d.name, d.help)),
                ..self
            },
            KindV::Flag { short, .. } => HelpV {
                options: self.options.push((d.name, short, HelpOptKind::Flag, d.help)),
                ..self
            },
            KindV::Count { short, .. } => HelpV {
                options: self.options.push((d.name, short, HelpOptKind::Count, d.help)),
                ..self
            },
            KindV::OptArg { short, .. } => HelpV {
                options: self.options.push((d.name, short, HelpOptKind::OptArg, d.help)),
                ..self
            },
            KindV::Interrupt { short } => HelpV {
                options: self.options.push((d.name, short, HelpOptKind::Interrupt, d.help)),
                help_defined: self.help_defined || d.name == "help"@,
                ..self
            },
        }
    }
}

/// The projection of the first `n` descriptors, in declaration order.
pub open spec fn help_upto(defs: Seq<DefV>, n: nat) -> HelpV
    decreases n,
{
    if n == 0 {
        HelpV::empty()
    } else {
        help_upto(defs, (n - 1) as nat).add(defs[n - 1])
    }
}

/// The projection of a descriptor list.
pub open spec fn help_of(defs: Seq<DefV>) -> HelpV {
    help_upto(defs, defs.len())
}

fn copy_text(o: &Option<String>) -> (r: Option<String>)
    ensures
        opt_str_view(r) == opt_str_view(*o),
{
    match o {
        Some(s) => Some(s.clone()),
        None => None,
    }
}

impl Help {
    /// Creates the projection of the given descriptors.
    pub fn from_definitions(definitions: &Vec<ArgDef>) -> (r: Help)
        ensures
            r@ == help_of(defs_view(definitions@)),
    {
        let ghost dv = defs_view(definitions@);
        let mut h = Help {
            positional: Vec::new(),
            trail: None,
            subcommands: Vec::new(),
            options: Vec::new(),
            help_defined: false,
        };
        assert(h@.positional =~= Seq::empty());
        assert(h@.subcommands =~= Seq::empty());
        assert(h@.options =~= Seq::empty());
        let mut i: usize = 0;
        while i < definitions.len()
            invariant
                0 <= i <= definitions.len(),
                dv == defs_view(definitions@),
                h@ == help_upto(dv, i as nat),
            decreases definitions.len() - i,
        {
            let d = &definitions[i];
            assert(dv[i as int] == d@);
            let ghost h0 = h@;
            let name = d.name.clone();
            let text = copy_text(&d.help_desc);
            match &d.kind {
                ArgDefKind::Positional { .. } => {
                    h.positional.push((name, text));
                    assert(h@.positional =~= h0.positional.push((d@.name, d@.help)));
                },
                ArgDefKind::Trail { optional, .. } => {
                    h.trail = Some((name, *optional, text));
                },
                ArgDefKind::Subcommand => {
                    h.subcommands.push((name, text));
                    assert(h@.subcommands =~= h0.subcommands.push((d@.name, d@.help)));
                },
                ArgDefKind::Flag { short, .. } => {
                    h.options.push((name, copy_text(short), HelpOptKind::Flag, text));
                    assert(h@.options =~= h0.options.push(
                        (d@.name, d@.kind.short(), HelpOptKind::Flag, d@.help),
                    ));
                },
                ArgDefKind::Count { short, .. } => {
                    h.options.push((name, copy_text(short), HelpOptKind::Count, text));
                    assert(h@.options =~= h0.options.push(
                        (d@.name, d@.kind.short(), HelpOptKind::Count, d@.help),
                    ));
                },
                ArgDefKind::OptArg { short, .. } => {
                    h.options.push((name, copy_text(short), HelpOptKind::OptArg, text));
                    assert(h@.options =~= h0.options.push(
                        (d@.name, d@.kind.short(), HelpOptKind::OptArg, d@.help),
                    ));
                },
                ArgDefKind::Interrupt { short } => {
                    let is_help = d.name == "help".to_owned();
                    h.options.push((name, copy_text(short), HelpOptKind::Interrupt, text));
                    assert(h@.options =~= h0.options.push(
                        (d@.name, d@.kind.short(), HelpOptKind::Interrupt, d@.help),
                    ));
                    h.help_defined = h.help_defined || is_help;
                },
            }
            i = i + 1;
        }
        h
    }
}


/// `" name"` for each positional, in order.
pub open spec fn positional_usage(ps: Seq<(Seq<char>, Option<Seq<char>>)>) -> Seq<char>
    decreases ps.len(),
{
    if ps.len() == 0 {
        Seq::empty()
    } else {
        positional_usage(ps.drop_last()) + " "@ + ps.last().0
    }
}

/// How the trail is written in usage: `[name...]`, or `name [name...]` when
/// at least one is needed.
pub open spec fn trail_usage(name: Seq<char>, optional: bool) -> Seq<char> {
    if optional {
        "["@ + name + "...]"@
    } else {
        name + " ["@ + name + "...]"@
    }
}

/// The names joined with `" | "`.
pub open spec fn joined(ps: Seq<(Seq<char>, Option<Seq<char>>)>) -> Seq<char>
    decreases ps.len(),
{
    if ps.len() == 0 {
        Seq::empty()
    } else if ps.len() == 1 {
        ps[0].0
    } else {
        joined(ps.drop_last()) + " | "@ + ps.last().0
    }
}

pub open spec fn options_usage(h: HelpV) -> Seq<char> {
    if h.options.len() == 0 {
        Seq::empty()
    } else if h.help_defined {
        if h.options.len() > 1 {
            " [ --help | OPTIONS ]"@
        } else {
            " [ --help ]"@
        }
    } else {
        " [ OPTIONS ]"@
    }
}

/// The usage line: program name, options, positionals, trail, subcommands.
pub open spec fn usage_text(h: HelpV, prog: Seq<char>) -> Seq<char> {
    prog + options_usage(h) + positional_usage(h.positional) + match h.trail {
        Some(t) => " "@ + trail_usage(t.0, t.1),
        None => Seq::empty(),
    } + if h.subcommands.len() == 0 {
        Seq::empty()
    } else {
        " { "@ + joined(h.subcommands) + " }"@
    }
}

/// Each line, after the prefix, ended by a newline.
pub open spec fn lines_block(prefix: Seq<char>, ls: Seq<Seq<char>>) -> Seq<char>
    decreases ls.len(),
{
    if ls.len() == 0 {
        Seq::empty()
    } else {
        lines_block(prefix, ls.drop_last()) + prefix + ls.last() + "\n"@
    }
}

/// A help text laid out as an indented block.
pub open spec fn text_block(prefix: Seq<char>, text: Seq<char>) -> Seq<char> {
    lines_block(prefix, stripped_lines(text))
}

pub open spec fn help_block(prefix: Seq<char>, help: Option<Seq<char>>) -> Seq<char> {
    match help {
        Some(t) => text_block(prefix, t),
        None => Seq::empty(),
    }
}

/// A positional or subcommand entry of the help message.
pub open spec fn named_entry(e: (Seq<char>, Option<Seq<char>>)) -> Seq<char> {
    "  "@ + e.0 + "\n"@ + help_block("    "@, e.1) + "\n"@
}

pub open spec fn named_entries(ps: Seq<(Seq<char>, Option<Seq<char>>)>) -> Seq<char>
    decreases ps.len(),
{
    if ps.len() == 0 {
        Seq::empty()
    } else {
        named_entries(ps.drop_last()) + named_entry(ps.last())
    }
}

pub open spec fn trail_entry(t: (Seq<char>, bool, Option<Seq<char>>)) -> Seq<char> {
    "  "@ + trail_usage(t.0, t.1) + "\n"@ + help_block("    "@, t.2) + "\n"@
}

/// An option entry: `--name`, the alias, a placeholder for a value, and help.
pub open spec fn option_entry(o: (Seq<char>, Option<Seq<char>>, HelpOptKind, Option<Seq<char>>)) -> Seq<char> {
    "  --"@ + o.0 + match o.1 {
        Some(sh) => ", -"@ + sh,
        None => Seq::empty(),
    } + if o.2 == HelpOptKind::OptArg {
        " "@ + upper_of(o.0)
    } else {
        Seq::empty()
    } + "\n"@ + match o.3 {
        Some(t) => text_block("      "@, t) + "\n"@,
        None => Seq::empty(),
    }
}

pub open spec fn option_entries(
    os: Seq<(Seq<char>, Option<Seq<char>>, HelpOptKind, Option<Seq<char>>)>,
) -> Seq<char>
    decreases os.len(),
{
    if os.len() == 0 {
        Seq::empty()
    } else {
        option_entries(os.drop_last()) + option_entry(os.last())
    }
}

pub open spec fn has_positional(h: HelpV) -> bool {
    h.positional.len() > 0 || h.trail is Some
}

pub open spec fn separator(h: HelpV, desc: Seq<char>) -> Seq<char> {
    if has_positional(h) || h.options.len() > 0 || desc.len() > 0 || h.subcommands.len() > 0 {
        "\n\n"@
    } else {
        Seq::empty()
    }
}

pub open spec fn description_section(desc: Seq<char>) -> Seq<char> {
    if desc.len() > 0 {
        text_block("  "@, desc)
    } else {
        Seq::empty()
    }
}

pub open spec fn positional_section(h: HelpV) -> Seq<char> {
    if has_positional(h) {
        "\nPositional arguments:\n"@ + named_entries(h.positional) + match h.trail {
            Some(t) => trail_entry(t),
            None => Seq::empty(),
        }
    } else {
        Seq::empty()
    }
}

pub open spec fn subcommand_section(h: HelpV) -> Seq<char> {
    if h.subcommands.len() > 0 {
        "\nSubcommands:\n"@ + named_entries(h.subcommands)
    } else {
        Seq::empty()
    }
}

pub open spec fn option_section(h: HelpV) -> Seq<char> {
    if h.options.len() > 0 {
        (if !(has_positional(h) || h.subcommands.len() > 0) {
            "\n"@
        } else {
            Seq::empty()
        }) + "Optional arguments:\n"@ + option_entries(h.options)
    } else {
        Seq::empty()
    }
}

/// The help message: usage, description, then a section for each role.
pub open spec fn help_text(h: HelpV, prog: Seq<char>, desc: Seq<char>) -> Seq<char> {
    "Usage:\n  "@ + usage_text(h, prog) + separator(h, desc) + description_section(desc)
        + positional_section(h) + subcommand_section(h) + option_section(h)
}

fn write_trimmed_n(s: &mut String, prefix: &str, text: &str)
    ensures
        final(s)@ == old(s)@ + text_block(prefix@, text@),
{
    let lines = trim_and_strip_lines(text);
    let ghost ls = stripped_lines(text@);
    let ghost s0 = s@;
    let mut k: usize = 0;
    assert(ls.subrange(0, 0) =~= Seq::<Seq<char>>::empty());
    assert(s@ =~= s0 + lines_block(prefix@, ls.subrange(0, 0)));
    while k < lines.len()
        invariant
            0 <= k <= lines.len(),
            strings_view(lines@) == ls,
            s@ == s0 + lines_block(prefix@, ls.subrange(0, k as int)),
        decreases lines.len() - k,
    {
        assert(ls[k as int] == lines@[k as int]@);
        assert(ls.subrange(0, k + 1).drop_last() =~= ls.subrange(0, k as int));
        s.append(prefix);
        s.append(lines[k].as_str());
        s.append("\n");
        assert(s@ =~= s0 + lines_block(prefix@, ls.subrange(0, k + 1)));
        k = k + 1;
    }
    assert(ls.subrange(0, lines.len() as int) =~= ls);
}

fn write_help_block(s: &mut String, prefix: &str, help: &Option<String>)
    ensures
        final(s)@ == old(s)@ + help_block(prefix@, opt_str_view(*help)),
{
    match help {
        Some(t) => write_trimmed_n(s, prefix, t.as_str()),
        None => {
            assert(s@ =~= s@ + Seq::<char>::empty());
        },
    }
}

fn write_trail_usage(s: &mut String, name: &String, optional: bool)
    ensures
        final(s)@ == old(s)@ + trail_usage(name@, optional),
{
    let ghost s0 = s@;
    if optional {
        s.append("[");
        s.append(name.as_str());
        s.append("...]");
    } else {
        s.append(name.as_str());
        s.append(" [");
        s.append(name.as_str());
        s.append("...]");
    }
    assert(s@ =~= s0 + trail_usage(name@, optional));
}

fn write_named_entries(s: &mut String, entries: &Vec<(String, Option<String>)>)
    ensures
        final(s)@ == old(s)@ + named_entries(entries@.map_values(|e: (String, Option<String>)| named_view(e))),
{
    let ghost es = entries@.map_values(|e: (String, Option<String>)| named_view(e));
    let ghost s0 = s@;
    let mut k: usize = 0;
    assert(es.subrange(0, 0) =~= Seq::<(Seq<char>, Option<Seq<char>>)>::empty());
    assert(s@ =~= s0 + named_entries(es.subrange(0, 0)));
    while k < entries.len()
        invariant
            0 <= k <= entries.len(),
            es == entries@.map_values(|e: (String, Option<String>)| named_view(e)),
            s@ == s0 + named_entries(es.subrange(0, k as int)),
        decreases entries.len() - k,
    {
        let ghost s1 = s@;
        assert(es[k as int] == named_view(entries@[k as int]));
        assert(es.subrange(0, k + 1).drop_last() =~= es.subrange(0, k as int));
        s.append("  ");
        s.append(entries[k].0.as_str());
        s.append("\n");
        write_help_block(s, "    ", &entries[k].1);
        s.append("\n");
        assert(s@ =~= s1 + named_entry(es[k as int]));
        assert(s@ =~= s0 + named_entries(es.subrange(0, k + 1)));
        k = k + 1;
    }
    assert(es.subrange(0, entries.len() as int) =~= es);
}

fn write_option_entry(s: &mut String, e: &(String, Option<String>, HelpOptKind, Option<String>))
    ensures
        final(s)@ == old(s)@ + option_entry(option_view(*e)),
{
    let ghost o = option_view(*e);
    let ghost s1 = s@;
    s.append("  --");
    s.append(e.0.as_str());
    let ghost s2 = s@;
    match &e.1 {
        Some(short) => {
            s.append(", -");
            s.append(short.as_str());
        },
        None => {},
    }
    let ghost s3 = s@;
    match e.2 {
        HelpOptKind::OptArg => {
            s.append(" ");
            let upper = uppercase(e.0.as_str());
            s.append(upper.as_str());
        },
        _ => {},
    }
    let ghost s4 = s@;
    s.append("\n");
    let ghost s5 = s@;
    match &e.3 {
        Some(text) => {
            write_trimmed_n(s, "      ", text.as_str());
            s.append("\n");
        },
        None => {},
    }
    assert(s2 =~= s1 + "  --"@ + o.0);
    assert(s3 =~= s2 + match o.1 {
        Some(sh) => ", -"@ + sh,
        None => Seq::<char>::empty(),
    });
    assert(s4 =~= s3 + if o.2 == HelpOptKind::OptArg {
        " "@ + upper_of(o.0)
    } else {
        Seq::<char>::empty()
    });
    assert(s@ =~= s5 + match o.3 {
        Some(t) => text_block("      "@, t) + "\n"@,
        None => Seq::<char>::empty(),
    });
    assert(s@ =~= s1 + option_entry(o));
}

fn write_option_entries(s: &mut String, entries: &Vec<(String, Option<String>, HelpOptKind, Option<String>)>)
    ensures
        final(s)@ == old(s)@ + option_entries(
            entries@.map_values(|e: (String, Option<String>, HelpOptKind, Option<String>)| option_view(e)),
        ),
{
    let ghost es = entries@.map_values(
        |e: (String, Option<String>, HelpOptKind, Option<String>)| option_view(e),
    );
    let ghost s0 = s@;
    let mut k: usize = 0;
    assert(es.subrange(0, 0) =~= Seq::<(Seq<char>, Option<Seq<char>>, HelpOptKind, Option<Seq<char>>)>::empty());
    assert(s@ =~= s0 + option_entries(es.subrange(0, 0)));
    while k < entries.len()
        invariant
            0 <= k <= entries.len(),
            es == entries@.map_values(
                |e: (String, Option<String>, HelpOptKind, Option<String>)| option_view(e),
            ),
            s@ == s0 + option_entries(es.subrange(0, k as int)),
        decreases entries.len() - k,
    {
        let ghost s1 = s@;
        assert(es[k as int] == option_view(entries@[k as int]));
        assert(es.subrange(0, k + 1).drop_last() =~= es.subrange(0, k as int));
        write_option_entry(s, &entries[k]);
        assert(s@ =~= s0 + option_entries(es.subrange(0, k + 1)));
        k = k + 1;
    }
    assert(es.subrange(0, entries.len() as int) =~= es);
}

impl Help {
    fn write_positional_usage(&self, s: &mut String)
        ensures
            final(s)@ == old(s)@ + positional_usage(self@.positional),
    {
        let ghost h = self@;
        let ghost s1 = s@;
        let mut k: usize = 0;
        assert(h.positional.subrange(0, 0) =~= Seq::<(Seq<char>, Option<Seq<char>>)>::empty());
        assert(s@ =~= s1 + positional_usage(h.positional.subrange(0, 0)));
        while k < self.positional.len()
            invariant
                0 <= k <= self.positional.len(),
                h == self@,
                s@ == s1 + positional_usage(h.positional.subrange(0, k as int)),
            decreases self.positional.len() - k,
        {
            assert(h.positional[k as int] == named_view(self.positional@[k as int]));
            assert(h.positional.subrange(0, k + 1).drop_last() =~= h.positional.subrange(0, k as int));
            s.append(" ");
            s.append(self.positional[k].0.as_str());
            assert(s@ =~= s1 + positional_usage(h.positional.subrange(0, k + 1)));
            k = k + 1;
        }
        assert(h.positional.subrange(0, self.positional.len() as int) =~= h.positional);
    }

    fn write_subcommand_usage(&self, s: &mut String)
        ensures
            final(s)@ == old(s)@ + if self@.subcommands.len() == 0 {
                Seq::empty()
            } else {
                " { "@ + joined(self@.subcommands) + " }"@
            },
    {
        let ghost h = self@;
        let ghost s0 = s@;
        let n = self.subcommands.len();
        if n > 0 {
            s.append(" { ");
            let ghost s4 = s@;
            let mut k: usize = 0;
            while k < n
                invariant
                    0 <= k <= n,
                    n == self.subcommands.len(),
                    h == self@,
                    s@ == s4 + joined(h.subcommands.subrange(0, k as int)) + if 0 < k < n {
                        " | "@
                    } else {
                        Seq::<char>::empty()
                    },
                decreases n - k,
            {
                assert(h.subcommands[k as int] == named_view(self.subcommands@[k as int]));
                assert(h.subcommands.subrange(0, k + 1).drop_last() =~= h.subcommands.subrange(0, k as int));
                s.append(self.subcommands[k].0.as_str());
                if k + 1 < n {
                    s.append(" | ");
                }
                assert(s@ =~= s4 + joined(h.subcommands.subrange(0, k + 1)) + if 0 < k + 1 < n {
                    " | "@
                } else {
                    Seq::<char>::empty()
                });
                k = k + 1;
            }
            assert(h.subcommands.subrange(0, n as int) =~= h.subcommands);
            s.append(" }");
        }
        assert(s@ =~= s0 + if h.subcommands.len() == 0 {
            Seq::empty()
        } else {
            " { "@ + joined(h.subcommands) + " }"@
        });
    }

    fn write_usage_into(&self, s: &mut String, progname: &str)
        ensures
            final(s)@ == old(s)@ + usage_text(self@, progname@),
    {
        let ghost h = self@;
        let ghost s0 = s@;
        s.append(progname);
        if self.options.len() > 0 {
            if self.help_defined {
                if self.options.len() > 1 {
                    s.append(" [ --help | OPTIONS ]");
                } else {
                    s.append(" [ --help ]");
                }
            } else {
                s.append(" [ OPTIONS ]");
            }
        }
        assert(s@ =~= s0 + progname@ + options_usage(h));
        self.write_positional_usage(s);
        let ghost s2 = s@;
        match &self.trail {
            Some(t) => {
                s.append(" ");
                write_trail_usage(s, &t.0, t.1);
            },
            None => {},
        }
        let ghost s3 = s@;
        assert(s3 == s2 + match h.trail {
            Some(t) => " "@ + trail_usage(t.0, t.1),
            None => Seq::<char>::empty(),
        }) by {
            match &self.trail {
                Some(t) => { assert(s3 =~= s2 + (" "@ + trail_usage(t.0@, t.1))); },
                None => { assert(s3 =~= s2 + Seq::<char>::empty()); },
            }
        }
        self.write_subcommand_usage(s);
        assert(s@ =~= s0 + usage_text(h, progname@));
    }

    fn write_positional_section(&self, s: &mut String)
        ensures
            final(s)@ == old(s)@ + positional_section(self@),
    {
        let ghost s0 = s@;
        if self.positional.len() > 0 || self.trail.is_some() {
            s.append("\nPositional arguments:\n");
            write_named_entries(s, &self.positional);
            let ghost s1 = s@;
            match &self.trail {
                Some(t) => {
                    s.append("  ");
                    write_trail_usage(s, &t.0, t.1);
                    s.append("\n");
                    write_help_block(s, "    ", &t.2);
                    s.append("\n");
                    assert(s@ =~= s1 + trail_entry((t.0@, t.1, opt_str_view(t.2))));
                },
                None => {},
            }
        }
        assert(s@ =~= s0 + positional_section(self@));
    }

    fn write_subcommand_section(&self, s: &mut String)
        ensures
            final(s)@ == old(s)@ + subcommand_section(self@),
    {
        let ghost s0 = s@;
        if self.subcommands.len() > 0 {
            s.append("\nSubcommands:\n");
            write_named_entries(s, &self.subcommands);
        }
        assert(s@ =~= s0 + subcommand_section(self@));
    }

    fn write_option_section(&self, s: &mut String)
        ensures
            final(s)@ == old(s)@ + option_section(self@),
    {
        let ghost s0 = s@;
        if self.options.len() > 0 {
            if !(self.positional.len() > 0 || self.trail.is_some() || self.subcommands.len() > 0) {
                s.append("\n");
            }
            s.append("Optional arguments:\n");
            write_option_entries(s, &self.options);
        }
        assert(s@ =~= s0 + option_section(self@));
    }

    /// The usage line for this program.
    pub fn usage_message(&self, progname: &str) -> (r: String)
        ensures
            r@ == usage_text(self@, progname@),
    {
        let mut s = String::new();
        self.write_usage_into(&mut s, progname);
        assert(s@ =~= usage_text(self@, progname@));
        s
    }

    /// The help message for this program, with the given description, which
    /// may be empty.
    pub fn help_message(&self, progname: &str, description: &str) -> (r: String)
        ensures
            r@ == help_text(self@, progname@, description@),
    {
        let ghost h = self@;
        let mut s = "Usage:\n  ".to_owned();
        self.write_usage_into(&mut s, progname);
        let ghost s0 = s@;
        let has_description = description.unicode_len() > 0;
        let has_positional = self.positional.len() > 0 || self.trail.is_some();
        let has_optional = self.options.len() > 0;
        let has_subcommands = self.subcommands.len() > 0;
        if has_positional || has_optional || has_description || has_subcommands {
            s.append("\n\n");
        }
        assert(s@ =~= s0 + separator(h, description@));
        let ghost s1 = s@;
        if has_description {
            write_trimmed_n(&mut s, "  ", description);
        }
        assert(s@ =~= s1 + description_section(description@));
        self.write_positional_section(&mut s);
        self.write_subcommand_section(&mut s);
        self.write_option_section(&mut s);
        assert(s@ =~= s1 + description_section(description@) + positional_section(h)
            + subcommand_section(h) + option_section(h));
        assert(s@ =~= help_text(h, progname@, description@));
        s
    }
}

} // verus!
