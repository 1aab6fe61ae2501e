//! Properties of the parser as a whole, proved over its specification.
use vstd::prelude::*;
use crate::argdef::{DefV, KindV, ValueKind, convert};
use crate::parse::{
    OutcomeV, ScanV, StepV, TableV, add_def, command_named, compile, compile_upto, find_named,
    find_short, initial_scan, is_option_token, option_target, quoted, resolve, scan, step,
    unknown_option_message, valid_defs,
};

verus! {

/// Looking up one more index after the others.
proof fn lemma_find_named_push(defs: Seq<DefV>, ids: Seq<usize>, e: usize, key: Seq<char>)
    ensures
        find_named(defs, ids.push(e), key) == match find_named(defs, ids, key) {
            Some(x) => Some(x),
            None => if defs[e as int].name == key {
                Some(e)
            } else {
                None
            },
        },
    decreases ids.len(),
{
    assert(ids.push(e)[0] == if ids.len() > 0 { ids[0] } else { e });
    if ids.len() > 0 {
        assert(ids.push(e).drop_first() =~= ids.drop_first().push(e));
        lemma_find_named_push(defs, ids.drop_first(), e, key);
    } else {
        assert(ids.push(e).drop_first() =~= Seq::<usize>::empty());
        assert(find_named(defs, Seq::<usize>::empty(), key) is None);
    }
}

proof fn lemma_find_short_push(defs: Seq<DefV>, ids: Seq<usize>, e: usize, key: Seq<char>)
    ensures
        find_short(defs, ids.push(e), key) == match find_short(defs, ids, key) {
            Some(x) => Some(x),
            None => if defs[e as int].kind.short() == Some(key) {
                Some(e)
            } else {
                None
            },
        },
    decreases ids.len(),
{
    assert(ids.push(e)[0] == if ids.len() > 0 { ids[0] } else { e });
    if ids.len() > 0 {
        assert(ids.push(e).drop_first() =~= ids.drop_first().push(e));
        lemma_find_short_push(defs, ids.drop_first(), e, key);
    } else {
        assert(ids.push(e).drop_first() =~= Seq::<usize>::empty());
        assert(find_short(defs, Seq::<usize>::empty(), key) is None);
    }
}

/// No index in `ids` carries the short alias `key`.
proof fn lemma_find_short_absent(defs: Seq<DefV>, ids: Seq<usize>, key: Seq<char>)
    requires
        forall|k: int| 0 <= k < ids.len() ==> defs[#[trigger] ids[k] as int].kind.short() != Some(key),
    ensures
        find_short(defs, ids, key) is None,
    decreases ids.len(),
{
    if ids.len() > 0 {
        assert forall|k: int| 0 <= k < ids.drop_first().len() implies defs[#[trigger] ids.drop_first()[k] as int].kind.short()
            != Some(key) by {
            assert(ids.drop_first()[k] == ids[k + 1]);
        }
        lemma_find_short_absent(defs, ids.drop_first(), key);
    }
}

/// The positional descriptors among the first `n`, in declaration order.
pub open spec fn positional_upto(defs: Seq<DefV>, n: nat) -> Seq<usize>
    decreases n,
{
    if n == 0 {
        Seq::empty()
    } else {
        let r = positional_upto(defs, (n - 1) as nat);
        if defs[n - 1].kind is Positional {
            r.push((n - 1) as usize)
        } else {
            r
        }
    }
}

/// The positional descriptors, in declaration order.
pub open spec fn positional_order(defs: Seq<DefV>) -> Seq<usize> {
    positional_upto(defs, defs.len())
}

proof fn lemma_positional_upto(defs: Seq<DefV>, n: nat)
    requires
        n <= defs.len() <= usize::MAX,
    ensures
        forall|a: int| 0 <= a < positional_upto(defs, n).len() ==> {
            let x = #[trigger] positional_upto(defs, n)[a];
            x < n && defs[x as int].kind is Positional
        },
        forall|a: int, b: int| 0 <= a < b < positional_upto(defs, n).len() ==>
            #[trigger] positional_upto(defs, n)[a] < #[trigger] positional_upto(defs, n)[b],
    decreases n,
{
    if n > 0 {
        lemma_positional_upto(defs, (n - 1) as nat);
    }
}

/// What the table of the first `n` descriptors holds.
proof fn lemma_table(defs: Seq<DefV>, n: nat, t: TableV)
    requires
        n <= defs.len() <= usize::MAX,
        compile_upto(defs, n) == Ok::<TableV, Seq<char>>(t),
    ensures
        t.bounded(n as int),
        forall|k: int| 0 <= k < n && defs[k].kind.is_option() ==> find_named(defs, t.options, #[trigger] defs[k].name) == Some(k as usize),
        forall|k: int| 0 <= k < n && defs[k].kind.is_option() && defs[k].kind.short() is Some ==>
            find_short(defs, t.shorts, #[trigger] defs[k].kind.short()->0) == Some(k as usize),
        forall|k: int| 0 <= k < n && defs[k].kind is Trail ==> t.trail == Some(k as usize),
        t.trail is Some ==> defs[t.trail->0 as int].kind is Trail,
        t.positional == positional_upto(defs, n),
        forall|k: int| 0 <= k < n && (#[trigger] defs[k].kind) is Positional ==> t.positional.len() > 0,
        forall|k: int| 0 <= k < n && (#[trigger] defs[k].kind) is Subcommand ==> t.subcommands.len() > 0,
        (forall|k: int| 0 <= k < n ==> !((#[trigger] defs[k].kind) is Positional)) ==> t.positional.len() == 0,
        (forall|k: int| 0 <= k < n ==> !((#[trigger] defs[k].kind) is Subcommand)) ==> t.subcommands.len() == 0,
    decreases n,
{
    if n > 0 {
        let m = (n - 1) as nat;
        let t0 = compile_upto(defs, m)->Ok_0;
        assert(compile_upto(defs, m) is Ok);
        lemma_table(defs, m, t0);
        let d = defs[m as int];
        assert(add_def(defs, t0, m as usize) == Ok::<TableV, Seq<char>>(t));
        assert forall|k: int| 0 <= k < n && defs[k].kind.is_option() implies find_named(defs, t.options, #[trigger] defs[k].name) == Some(k as usize) by {
            if d.kind.is_option() {
                lemma_find_named_push(defs, t0.options, m as usize, defs[k].name);
                if k == m {
                    assert(!command_named(defs, t0, d.name));
                }
            }
        }
        assert forall|k: int| 0 <= k < n && defs[k].kind.is_option() && defs[k].kind.short() is Some implies
            find_short(defs, t.shorts, #[trigger] defs[k].kind.short()->0) == Some(k as usize) by {
            if d.kind.is_option() && d.kind.short() is Some {
                lemma_find_short_push(defs, t0.shorts, m as usize, defs[k].kind.short()->0);
            }
        }
        assert forall|k: int| 0 <= k < n && defs[k].kind is Trail implies t.trail == Some(k as usize) by {
            if k < m {
                assert(t0.trail == Some(k as usize));
            }
        }
        assert forall|k: int| 0 <= k < n && (#[trigger] defs[k].kind) is Positional implies t.positional.len() > 0 by {
            if k < m {
                assert(t0.positional.len() > 0);
            }
        }
        assert forall|k: int| 0 <= k < n && (#[trigger] defs[k].kind) is Subcommand implies t.subcommands.len() > 0 by {
            if k < m {
                assert(t0.subcommands.len() > 0);
            }
        }
    }
}

/// Identical descriptor lists and identical tokens give identical bindings and
/// an identical outcome.
pub proof fn lemma_parse_deterministic(
    defs1: Seq<DefV>,
    defs2: Seq<DefV>,
    args1: Seq<Seq<char>>,
    args2: Seq<Seq<char>>,
)
    requires
        defs1 == defs2,
        args1 == args2,
    ensures
        resolve(defs1, args1) == resolve(defs2, args2),
{
}

/// A list with both a positional (or trail) and a subcommand is refused before
/// any token is read, whatever the tokens, and no binding is touched.
pub proof fn lemma_positional_subcommand_conflict(
    defs: Seq<DefV>,
    args: Seq<Seq<char>>,
    p: int,
    c: int,
)
    requires
        defs.len() <= usize::MAX,
        0 <= p < defs.len(),
        0 <= c < defs.len(),
        defs[p].kind.is_positional(),
        defs[c].kind is Subcommand,
    ensures
        !valid_defs(defs),
        resolve(defs, args).0 == defs,
        resolve(defs, args).1 is Invalid,
{
    let last = if p < c { c } else { p };
    let m = last as nat;
    if compile_upto(defs, m + 1) is Ok {
        let t0 = compile_upto(defs, m)->Ok_0;
        lemma_table(defs, m, t0);
        if p < c {
            assert(defs[p].kind is Positional ==> t0.positional.len() > 0);
            assert(defs[p].kind is Trail ==> t0.trail is Some);
        } else {
            assert(t0.subcommands.len() > 0);
        }
        assert(add_def(defs, t0, last as usize) is Err);
    }
    crate::parse::lemma_compile_err_stays(defs, m + 1, defs.len());
}


/// Lookups by name read nothing but the names.
proof fn lemma_find_named_names(d1: Seq<DefV>, d2: Seq<DefV>, ids: Seq<usize>, key: Seq<char>)
    requires
        d1.len() == d2.len(),
        forall|k: int| 0 <= k < d1.len() ==> (#[trigger] d1[k]).name == d2[k].name,
        forall|k: int| 0 <= k < ids.len() ==> #[trigger] ids[k] < d1.len(),
    ensures
        find_named(d1, ids, key) == find_named(d2, ids, key),
    decreases ids.len(),
{
    if ids.len() > 0 {
        assert(d1[ids[0] as int].name == d2[ids[0] as int].name);
        assert forall|k: int| 0 <= k < ids.drop_first().len() implies #[trigger] ids.drop_first()[k] < d1.len() by {
            assert(ids.drop_first()[k] == ids[k + 1]);
        }
        lemma_find_named_names(d1, d2, ids.drop_first(), key);
    }
}

/// The long form of an option's name.
pub open spec fn long_token(name: Seq<char>) -> Seq<char> {
    "--"@ + name
}

proof fn lemma_long_token(name: Seq<char>)
    ensures
        long_token(name).len() >= 2,
        long_token(name)[0] == '-',
        long_token(name)[1] == '-',
        long_token(name).subrange(2, long_token(name).len() as int) == name,
{
    reveal_strlit("--");
    assert(long_token(name).subrange(2, long_token(name).len() as int) =~= name);
}

/// A token with one dash whose alias no descriptor declares fails, quoting
/// the token, before anything is bound.
pub proof fn lemma_unknown_short(defs: Seq<DefV>, tok: Seq<char>, rest: Seq<Seq<char>>)
    requires
        defs.len() <= usize::MAX,
        valid_defs(defs),
        tok.len() > 0,
        tok[0] == '-',
        !(tok.len() >= 2 && tok[1] == '-'),
        forall|k: int| 0 <= k < defs.len() ==> (#[trigger] defs[k].kind).short() != Some(
            tok.subrange(1, tok.len() as int),
        ),
    ensures
        resolve(defs, seq![tok] + rest) == (defs, OutcomeV::Failed(unknown_option_message(tok))),
{
    let t = compile(defs)->Ok_0;
    lemma_table(defs, defs.len(), t);
    let key = tok.subrange(1, tok.len() as int);
    assert forall|k: int| 0 <= k < t.shorts.len() implies defs[#[trigger] t.shorts[k] as int].kind.short() != Some(key) by {
        assert(t.shorts[k] < defs.len());
        assert(defs[t.shorts[k] as int].kind.short() != Some(key));
    }
    lemma_find_short_absent(defs, t.shorts, key);
    assert((seq![tok] + rest)[0] == tok);
}

/// An interrupt option given first stops the parse at once, naming the
/// option, even with positionals unfilled; no binding is touched.
pub proof fn lemma_interrupt_first(defs: Seq<DefV>, x: int, rest: Seq<Seq<char>>)
    requires
        defs.len() <= usize::MAX,
        valid_defs(defs),
        0 <= x < defs.len(),
        defs[x].kind is Interrupt,
    ensures
        resolve(defs, seq![long_token(defs[x].name)] + rest) == (
            defs,
            OutcomeV::Interrupted(defs[x].name),
        ),
{
    let t = compile(defs)->Ok_0;
    lemma_table(defs, defs.len(), t);
    lemma_long_token(defs[x].name);
    let args = seq![long_token(defs[x].name)] + rest;
    assert(args[0] == long_token(defs[x].name));
    assert(find_named(defs, t.options, defs[x].name) == Some(x as usize));
}

/// Wherever the scan stands, a token that names an interrupt option by its
/// long form stops it there, naming the option, with the bindings as they are.
pub proof fn lemma_interrupt_anywhere(
    defs: Seq<DefV>,
    s: ScanV,
    args: Seq<Seq<char>>,
    i: nat,
    x: int,
)
    requires
        defs.len() <= usize::MAX,
        valid_defs(defs),
        0 <= x < defs.len(),
        defs[x].kind is Interrupt,
        s.defs.len() == defs.len(),
        forall|y: int| 0 <= y < defs.len() ==> (#[trigger] s.defs[y]).name == defs[y].name,
        s.defs[x].kind is Interrupt,
        i < args.len(),
        args[i as int] == long_token(defs[x].name),
    ensures
        scan(compile(defs)->Ok_0, s, args, i) == (s.defs, OutcomeV::Interrupted(defs[x].name)),
{
    let t = compile(defs)->Ok_0;
    lemma_table(defs, defs.len(), t);
    lemma_long_token(defs[x].name);
    assert(find_named(defs, t.options, defs[x].name) == Some(x as usize));
    assert forall|k: int| 0 <= k < t.options.len() implies #[trigger] t.options[k] < s.defs.len() by {}
    lemma_find_named_names(s.defs, defs, t.options, defs[x].name);
}

proof fn lemma_scan_interrupt_ignores_rest(
    t: TableV,
    s: ScanV,
    args: Seq<Seq<char>>,
    more: Seq<Seq<char>>,
    i: nat,
)
    requires
        i <= args.len(),
        scan(t, s, args, i).1 is Interrupted,
    ensures
        scan(t, s, args + more, i) == scan(t, s, args, i),
    decreases args.len() - i,
{
    let a2 = args + more;
    if i < args.len() {
        assert(a2[i as int] == args[i as int]);
        if i + 1 < args.len() {
            assert(a2[i + 1 as int] == args[i + 1 as int]);
        }
        assert(step(t, s, a2, i) == step(t, s, args, i));
        match step(t, s, args, i) {
            StepV::Next(s2, j) => {
                lemma_scan_interrupt_ignores_rest(t, s2, args, more, j);
            },
            StepV::Stop(..) => {},
        }
    }
}

/// Once an interrupt option is reached, the tokens after it are never read or
/// bound: appending tokens changes neither the bindings nor the outcome.
pub proof fn lemma_interrupt_ignores_rest(defs: Seq<DefV>, args: Seq<Seq<char>>, more: Seq<Seq<char>>)
    requires
        resolve(defs, args).1 is Interrupted,
    ensures
        resolve(defs, args + more) == resolve(defs, args),
{
    if compile(defs) is Ok {
        lemma_scan_interrupt_ignores_rest(compile(defs)->Ok_0, initial_scan(defs), args, more, 0);
    }
}

/// A value option given twice fails with a message that names it, and its
/// binding keeps the first value.
pub proof fn lemma_value_given_twice(defs: Seq<DefV>, x: int, a: Seq<char>, b: Seq<char>)
    requires
        defs.len() <= usize::MAX,
        valid_defs(defs),
        0 <= x < defs.len(),
        match defs[x].kind {
            KindV::OptArg { kind, .. } => convert(kind, a) is Some,
            _ => false,
        },
    ensures
        ({
            let tok = long_token(defs[x].name);
            let r = resolve(defs, seq![tok, a, tok, b]);
            &&& r.1 == OutcomeV::Failed(quoted("Option '"@, defs[x].name, "' given twice!"@))
            &&& match defs[x].kind {
                KindV::OptArg { short, kind, .. } => r.0[x].kind == (KindV::OptArg {
                    short,
                    kind,
                    value: convert(kind, a),
                }),
                _ => false,
            }
        }),
{
    let t = compile(defs)->Ok_0;
    lemma_table(defs, defs.len(), t);
    let name = defs[x].name;
    let tok = long_token(name);
    lemma_long_token(name);
    let args = seq![tok, a, tok, b];
    let s0 = initial_scan(defs);
    assert(find_named(defs, t.options, name) == Some(x as usize));
    let s1 = step(t, s0, args, 0)->Next_0;
    assert(step(t, s0, args, 0) == StepV::Next(s1, 2));
    assert forall|k: int| 0 <= k < defs.len() implies (#[trigger] s1.defs[k]).name == defs[k].name by {}
    assert forall|k: int| 0 <= k < t.options.len() implies #[trigger] t.options[k] < s1.defs.len() by {}
    lemma_find_named_names(s1.defs, defs, t.options, name);
    assert(scan(t, s0, args, 0) == scan(t, s1, args, 2));
}


/// The tokens without a leading dash, in order.
pub open spec fn free_tokens(args: Seq<Seq<char>>) -> Seq<Seq<char>>
    decreases args.len(),
{
    if args.len() == 0 {
        Seq::empty()
    } else {
        let r = free_tokens(args.drop_last());
        if is_option_token(args.last()) {
            r
        } else {
            r.push(args.last())
        }
    }
}

proof fn lemma_free_tokens_prefix(args: Seq<Seq<char>>, i: nat, j: nat)
    requires
        i <= j <= args.len(),
    ensures
        free_tokens(args.take(i as int)).len() <= free_tokens(args.take(j as int)).len(),
        forall|k: int| 0 <= k < free_tokens(args.take(i as int)).len() ==>
            #[trigger] free_tokens(args.take(i as int))[k] == free_tokens(args.take(j as int))[k],
    decreases j - i,
{
    if i < j {
        lemma_free_tokens_prefix(args, i, (j - 1) as nat);
        assert(args.take(j as int).drop_last() =~= args.take(j - 1));
    }
}

/// A token that names a flag or a counter by its long form.
pub open spec fn names_switch(defs: Seq<DefV>, tok: Seq<char>) -> bool {
    exists|y: int|
        0 <= y < defs.len() && (defs[y].kind is Flag || defs[y].kind is Count) && tok == long_token(
            #[trigger] defs[y].name,
        )
}

/// The kind of value that a positional descriptor reads.
pub open spec fn positional_kind(d: DefV) -> ValueKind {
    match d.kind {
        KindV::Positional { target } => target.kind(),
        _ => ValueKind::Text,
    }
}

/// The binding of positional `x` once it has read `tok`.
pub open spec fn bound_positional(defs: Seq<DefV>, x: usize, tok: Seq<char>) -> KindV {
    KindV::Positional { target: convert(positional_kind(defs[x as int]), tok)->0 }
}

spec fn min(a: int, b: int) -> int {
    if a < b {
        a
    } else {
        b
    }
}

/// The scan state after the first `i` tokens, when every dashed token so far
/// names a switch.
spec fn positional_state(defs: Seq<DefV>, t: TableV, s: ScanV, args: Seq<Seq<char>>, i: nat) -> bool {
    let p = t.positional;
    let f = free_tokens(args.take(i as int));
    &&& s.defs.len() == defs.len()
    &&& forall|y: int| 0 <= y < defs.len() ==> (#[trigger] s.defs[y]).name == defs[y].name
    &&& forall|y: int| 0 <= y < defs.len() ==> ((#[trigger] defs[y]).kind is Flag ==> s.defs[y].kind is Flag)
    &&& forall|y: int| 0 <= y < defs.len() ==> ((#[trigger] defs[y]).kind is Count ==> s.defs[y].kind is Count)
    &&& s.next_pos == min(f.len() as int, p.len() as int)
    &&& forall|k: int| 0 <= k < s.next_pos ==> (#[trigger] s.defs[p[k] as int]).kind == bound_positional(defs, p[k], f[k])
    &&& forall|k: int| s.next_pos <= k < p.len() ==> #[trigger] s.defs[p[k] as int] == defs[p[k] as int]
}

proof fn lemma_scan_positionals(defs: Seq<DefV>, t: TableV, s: ScanV, args: Seq<Seq<char>>, i: nat)
    requires
        defs.len() <= usize::MAX,
        compile(defs) == Ok::<TableV, Seq<char>>(t),
        i <= args.len(),
        positional_state(defs, t, s, args, i),
        free_tokens(args).len() >= t.positional.len(),
        forall|j: int| 0 <= j < args.len() && is_option_token(#[trigger] args[j]) ==> names_switch(defs, args[j]),
        forall|k: int| 0 <= k < t.positional.len() ==>
            convert(positional_kind(defs[t.positional[k] as int]), #[trigger] free_tokens(args)[k]) is Some,
    ensures
        forall|k: int| 0 <= k < t.positional.len() ==> (#[trigger] scan(t, s, args, i).0[t.positional[k] as int]).kind
            == bound_positional(defs, t.positional[k], free_tokens(args)[k]),
    decreases args.len() - i,
{
    lemma_table(defs, defs.len(), t);
    lemma_positional_upto(defs, defs.len());
    let p = t.positional;
    let n = p.len();
    let f = free_tokens(args.take(i as int));
    let full = free_tokens(args);
    assert(args.take(args.len() as int) =~= args);
    lemma_free_tokens_prefix(args, i, args.len());
    if i >= args.len() {
        assert(scan(t, s, args, i).0 == s.defs);
        return;
    }
    let tok = args[i as int];
    let f2 = free_tokens(args.take(i + 1 as int));
    assert(args.take(i + 1 as int).drop_last() =~= args.take(i as int));
    assert(args.take(i + 1 as int).last() == tok);
    lemma_free_tokens_prefix(args, i + 1, args.len());
    if is_option_token(tok) {
        assert(names_switch(defs, tok));
        let y = choose|y: int|
            0 <= y < defs.len() && (defs[y].kind is Flag || defs[y].kind is Count) && tok == long_token(
                #[trigger] defs[y].name,
            );
        lemma_long_token(defs[y].name);
        assert(defs[y].kind.is_option());
        assert(find_named(defs, t.options, defs[y].name) == Some(y as usize));
        assert forall|k: int| 0 <= k < t.options.len() implies #[trigger] t.options[k] < s.defs.len() by {}
        lemma_find_named_names(s.defs, defs, t.options, defs[y].name);
        assert(option_target(s.defs, t, tok) == Some(y as usize));
        let s2 = step(t, s, args, i)->Next_0;
        assert(step(t, s, args, i) == StepV::Next(s2, i + 1));
        assert(f2 == f);
        assert forall|k: int| 0 <= k < n implies p[k] != y by {}
        assert(positional_state(defs, t, s2, args, i + 1));
        lemma_scan_positionals(defs, t, s2, args, i + 1);
    } else if s.next_pos < n {
        let x = p[s.next_pos as int];
        assert(s.defs[x as int] == defs[x as int]);
        assert(f2 == f.push(tok));
        assert(s.next_pos == f.len());
        assert(f2[s.next_pos as int] == tok);
        assert(free_tokens(args.take(args.len() as int)) == full);
        assert(free_tokens(args.take(i + 1 as int))[s.next_pos as int] == free_tokens(
            args.take(args.len() as int),
        )[s.next_pos as int]);
        assert(full[s.next_pos as int] == tok);
        let s2 = step(t, s, args, i)->Next_0;
        assert(step(t, s, args, i) == StepV::Next(s2, i + 1));
        assert forall|k: int| 0 <= k < n && k != s.next_pos implies p[k] != x by {
            if k < s.next_pos {
                assert(p[k] < p[s.next_pos as int]);
            } else {
                assert(p[s.next_pos as int] < p[k]);
            }
        }
        assert forall|k: int| 0 <= k < s2.next_pos implies (#[trigger] s2.defs[p[k] as int]).kind
            == bound_positional(defs, p[k], f2[k]) by {
            if k < s.next_pos {
                assert(f2[k] == f[k]);
            }
        }
        assert(positional_state(defs, t, s2, args, i + 1));
        lemma_scan_positionals(defs, t, s2, args, i + 1);
    } else {
        assert forall|k: int| 0 <= k < n implies #[trigger] f[k] == full[k] by {}
        match step(t, s, args, i) {
            StepV::Next(s2, j) => {
                let x = t.trail->0;
                assert(j == i + 1);
                assert(f2 == f.push(tok));
                assert forall|k: int| 0 <= k < n implies p[k] != x by {}
                assert forall|k: int| 0 <= k < s2.next_pos implies (#[trigger] s2.defs[p[k] as int]).kind
                    == bound_positional(defs, p[k], f2[k]) by {
                    assert(f2[k] == f[k]);
                }
                assert(positional_state(defs, t, s2, args, i + 1));
                lemma_scan_positionals(defs, t, s2, args, i + 1);
            },
            StepV::Stop(d, o) => {
                assert(d == s.defs);
            },
        }
    }
}

/// Whatever options are given between them, as long as each names a flag or a
/// counter, the first tokens without a dash bind the positionals one by one in
/// declaration order.
pub proof fn lemma_positionals_in_order(defs: Seq<DefV>, args: Seq<Seq<char>>)
    requires
        defs.len() <= usize::MAX,
        valid_defs(defs),
        free_tokens(args).len() >= positional_order(defs).len(),
        forall|j: int| 0 <= j < args.len() && is_option_token(#[trigger] args[j]) ==> names_switch(defs, args[j]),
        forall|k: int| 0 <= k < positional_order(defs).len() ==>
            convert(positional_kind(defs[positional_order(defs)[k] as int]), #[trigger] free_tokens(args)[k]) is Some,
    ensures
        forall|k: int| 0 <= k < positional_order(defs).len() ==>
            (#[trigger] resolve(defs, args).0[positional_order(defs)[k] as int]).kind
            == bound_positional(defs, positional_order(defs)[k], free_tokens(args)[k]),
{
    let t = compile(defs)->Ok_0;
    lemma_table(defs, defs.len(), t);
    let s0 = initial_scan(defs);
    assert(args.take(0) =~= Seq::<Seq<char>>::empty());
    assert(positional_state(defs, t, s0, args, 0));
    lemma_scan_positionals(defs, t, s0, args, 0);
}


proof fn lemma_scan_trail_untouched(defs: Seq<DefV>, t: TableV, s: ScanV, args: Seq<Seq<char>>, i: nat)
    requires
        defs.len() <= usize::MAX,
        compile(defs) == Ok::<TableV, Seq<char>>(t),
        t.trail is Some,
        i <= args.len(),
        positional_state(defs, t, s, args, i),
        !s.trail_done,
        s.defs[t.trail->0 as int] == defs[t.trail->0 as int],
        free_tokens(args).len() == t.positional.len(),
        forall|j: int| 0 <= j < args.len() && is_option_token(#[trigger] args[j]) ==> names_switch(defs, args[j]),
        forall|k: int| 0 <= k < t.positional.len() ==>
            convert(positional_kind(defs[t.positional[k] as int]), #[trigger] free_tokens(args)[k]) is Some,
    ensures
        scan(t, s, args, i).1 == match defs[t.trail->0 as int].kind {
            KindV::Trail { optional, .. } => if optional {
                OutcomeV::Success
            } else {
                OutcomeV::Failed(
                    quoted(
                        "Expected at least one trailing argument for '"@,
                        defs[t.trail->0 as int].name,
                        "'"@,
                    ),
                )
            },
            _ => OutcomeV::Success,
        },
    decreases args.len() - i,
{
    lemma_table(defs, defs.len(), t);
    lemma_positional_upto(defs, defs.len());
    let p = t.positional;
    let n = p.len();
    let x = t.trail->0;
    let f = free_tokens(args.take(i as int));
    let full = free_tokens(args);
    assert(args.take(args.len() as int) =~= args);
    lemma_free_tokens_prefix(args, i, args.len());
    if i >= args.len() {
        assert(f == full);
        return;
    }
    let tok = args[i as int];
    let f2 = free_tokens(args.take(i + 1 as int));
    assert(args.take(i + 1 as int).drop_last() =~= args.take(i as int));
    assert(args.take(i + 1 as int).last() == tok);
    lemma_free_tokens_prefix(args, i + 1, args.len());
    if is_option_token(tok) {
        assert(names_switch(defs, tok));
        let y = choose|y: int|
            0 <= y < defs.len() && (defs[y].kind is Flag || defs[y].kind is Count) && tok == long_token(
                #[trigger] defs[y].name,
            );
        lemma_long_token(defs[y].name);
        assert(defs[y].kind.is_option());
        assert(find_named(defs, t.options, defs[y].name) == Some(y as usize));
        assert forall|k: int| 0 <= k < t.options.len() implies #[trigger] t.options[k] < s.defs.len() by {}
        lemma_find_named_names(s.defs, defs, t.options, defs[y].name);
        assert(option_target(s.defs, t, tok) == Some(y as usize));
        let s2 = step(t, s, args, i)->Next_0;
        assert(step(t, s, args, i) == StepV::Next(s2, i + 1));
        assert(f2 == f);
        assert forall|k: int| 0 <= k < n implies p[k] != y by {}
        assert(positional_state(defs, t, s2, args, i + 1));
        lemma_scan_trail_untouched(defs, t, s2, args, i + 1);
    } else {
        assert(f2 == f.push(tok));
        assert(s.next_pos < n);
        let px = p[s.next_pos as int];
        assert(s.defs[px as int] == defs[px as int]);
        assert(s.next_pos == f.len());
        assert(f2[s.next_pos as int] == tok);
        assert(free_tokens(args.take(args.len() as int)) == full);
        assert(free_tokens(args.take(i + 1 as int))[s.next_pos as int] == free_tokens(
            args.take(args.len() as int),
        )[s.next_pos as int]);
        assert(full[s.next_pos as int] == tok);
        let s2 = step(t, s, args, i)->Next_0;
        assert(step(t, s, args, i) == StepV::Next(s2, i + 1));
        assert forall|k: int| 0 <= k < n && k != s.next_pos implies p[k] != px by {
            if k < s.next_pos {
                assert(p[k] < p[s.next_pos as int]);
            } else {
                assert(p[s.next_pos as int] < p[k]);
            }
        }
        assert(px != x);
        assert forall|k: int| 0 <= k < s2.next_pos implies (#[trigger] s2.defs[p[k] as int]).kind
            == bound_positional(defs, p[k], f2[k]) by {
            if k < s.next_pos {
                assert(f2[k] == f[k]);
            }
        }
        assert(positional_state(defs, t, s2, args, i + 1));
        lemma_scan_trail_untouched(defs, t, s2, args, i + 1);
    }
}

/// A trail that no token reaches: once the positionals are filled and every
/// option given is a flag or a counter, a mandatory trail fails naming
/// itself, and an optional one succeeds.
pub proof fn lemma_trail_without_tokens(defs: Seq<DefV>, args: Seq<Seq<char>>, x: int)
    requires
        defs.len() <= usize::MAX,
        valid_defs(defs),
        0 <= x < defs.len(),
        defs[x].kind is Trail,
        free_tokens(args).len() == positional_order(defs).len(),
        forall|j: int| 0 <= j < args.len() && is_option_token(#[trigger] args[j]) ==> names_switch(defs, args[j]),
        forall|k: int| 0 <= k < positional_order(defs).len() ==>
            convert(positional_kind(defs[positional_order(defs)[k] as int]), #[trigger] free_tokens(args)[k]) is Some,
    ensures
        match defs[x].kind {
            KindV::Trail { optional, .. } => resolve(defs, args).1 == if optional {
                OutcomeV::Success
            } else {
                OutcomeV::Failed(
                    quoted("Expected at least one trailing argument for '"@, defs[x].name, "'"@),
                )
            },
            _ => false,
        },
{
    let t = compile(defs)->Ok_0;
    lemma_table(defs, defs.len(), t);
    assert(t.trail == Some(x as usize));
    let s0 = initial_scan(defs);
    assert(args.take(0) =~= Seq::<Seq<char>>::empty());
    assert(positional_state(defs, t, s0, args, 0));
    lemma_scan_trail_untouched(defs, t, s0, args, 0);
}

} // verus!
