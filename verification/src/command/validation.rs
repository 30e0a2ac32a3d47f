//! Validation: holding an argument tree against a command definition.
//!
//! This takes two steps. `validate` checks the tree level by level, from the root down,
//! and stops at the first level that fails. `resolve_aliases` then rewrites every name in
//! the tree to the canonical one.

use super::{
    names_contain, ArgumentKind, Command, CommandView, InvalidArguments, InvalidArgumentsView,
    PropView,
};
use crate::args::{
    add_flag, distinct_keys, has_key, insert_flag, insert_prop, lemma_insert_prop_wf, set_prop,
    tree, Args, ArgsView,
};
use crate::search::{first_match, lemma_first_match, lemma_first_match_is};
use crate::text::views;
use vstd::prelude::*;

verus! {

impl CommandView {
    /// A flag name that no definition carries.
    pub open spec fn unknown_flag(self) -> spec_fn(Seq<char>) -> bool {
        |name: Seq<char>| self.find_flag(name) is None
    }

    /// A prop whose key no definition carries.
    pub open spec fn unknown_prop(self) -> spec_fn((Seq<char>, Seq<char>)) -> bool {
        |p: (Seq<char>, Seq<char>)| self.find_prop(p.0) is None
    }

    /// The canonical names of the props that were given.
    pub open spec fn observed(self, props: Seq<(Seq<char>, Seq<char>)>) -> Seq<Seq<char>> {
        props.map_values(|p: (Seq<char>, Seq<char>)| self.canonical_prop(p.0))
    }
}

/// A required prop definition whose canonical name is not among `observed`.
pub open spec fn missing_from(observed: Seq<Seq<char>>) -> spec_fn(PropView) -> bool {
    |p: PropView| p.required && !observed.contains(p.name())
}

/// The check of one level: the flags and props of `args` against `def`.
///
/// Every flag must be known, then every prop, in the order they were given; then every
/// required prop must have been given, and the first in definition order that was not is
/// reported.
pub open spec fn check_level(def: CommandView, args: ArgsView) -> Result<
    (),
    InvalidArgumentsView,
> {
    let flag = first_match(args.flags, def.unknown_flag());
    let prop = first_match(args.props, def.unknown_prop());
    let missing = first_match(def.props, missing_from(def.observed(args.props)));
    if flag < args.flags.len() {
        Err(
            InvalidArgumentsView::UnrecognizedArgument {
                name: args.flags[flag],
                kind: ArgumentKind::Flag,
            },
        )
    } else if prop < args.props.len() {
        Err(
            InvalidArgumentsView::UnrecognizedArgument {
                name: args.props[prop].0,
                kind: ArgumentKind::Prop,
            },
        )
    } else if missing < def.props.len() {
        Err(InvalidArgumentsView::MissingRequiredOptions(def.props[missing].name()))
    } else {
        Ok(())
    }
}

/// The check of a whole tree, from the root down. The first level that fails decides:
/// the levels below it are not looked at. A subcommand must be known to the definition
/// of the command above it, and is then checked against its own definition.
pub open spec fn validate(def: CommandView, args: ArgsView) -> Result<(), InvalidArgumentsView>
    decreases args,
{
    match check_level(def, args) {
        Err(e) => Err(e),
        Ok(_) => match args.subcommand {
            None => Ok(()),
            Some(child) => match def.find_command(child.name) {
                None => Err(
                    InvalidArgumentsView::UnrecognizedArgument {
                        name: child.name,
                        kind: ArgumentKind::Command,
                    },
                ),
                Some(sub) => validate(sub, *child),
            },
        },
    }
}

/// The canonical names of `flags`, each once, in the order of their first occurrence.
pub open spec fn canonical_flags(def: CommandView, flags: Seq<Seq<char>>) -> Seq<Seq<char>>
    decreases flags.len(),
{
    if flags.len() == 0 {
        Seq::empty()
    } else {
        insert_flag(canonical_flags(def, flags.drop_last()), def.canonical_flag(flags.last()))
    }
}

/// `props` under their canonical names. Where two props have the same canonical name, it
/// stands where the first was given and has the value of the last.
pub open spec fn canonical_props(def: CommandView, props: Seq<(Seq<char>, Seq<char>)>) -> Seq<
    (Seq<char>, Seq<char>),
>
    decreases props.len(),
{
    if props.len() == 0 {
        Seq::empty()
    } else {
        insert_prop(
            canonical_props(def, props.drop_last()),
            def.canonical_prop(props.last().0),
            props.last().1,
        )
    }
}

/// The tree `args` with every name replaced by the canonical one: flags and props at
/// every level, and the names of the subcommands. A name that the definition does not
/// know stays as it is, and what lies below an unknown subcommand stays as it is.
pub open spec fn resolve(def: CommandView, args: ArgsView) -> ArgsView
    decreases args,
{
    ArgsView {
        name: args.name,
        flags: canonical_flags(def, args.flags),
        props: canonical_props(def, args.props),
        subcommand: match args.subcommand {
            None => None,
            Some(child) => match def.find_command(child.name) {
                Some(sub) => Some(Box::new(ArgsView { name: sub.name(), ..resolve(sub, *child) })),
                None => Some(child),
            },
        },
    }
}

/// The tree `args` cut below level `depth`: the root is level 0.
pub open spec fn cut(args: ArgsView, depth: nat) -> ArgsView
    decreases depth,
{
    match args.subcommand {
        Some(child) => {
            if depth == 0 {
                ArgsView { subcommand: None, ..args }
            } else {
                ArgsView { subcommand: Some(Box::new(cut(*child, (depth - 1) as nat))), ..args }
            }
        },
        None => args,
    }
}

/// Validation goes level by level: a tree is valid exactly when its root passes the check
/// of its level and its subcommand, if it has one, is known and valid against its own
/// definition.
pub proof fn lemma_validate_by_level(def: CommandView, args: ArgsView)
    ensures
        validate(def, args) is Ok <==> check_level(def, args) is Ok && match args.subcommand {
            None => true,
            Some(child) => match def.find_command(child.name) {
                None => false,
                Some(sub) => validate(sub, *child) is Ok,
            },
        },
{
}

/// An unknown subcommand fails the validation at once, whatever it holds: the error names
/// it, and nothing below it is looked at.
pub proof fn lemma_unknown_subcommand(def: CommandView, args: ArgsView)
    requires
        check_level(def, args) is Ok,
        args.subcommand is Some,
        def.find_command(args.subcommand->0.name) is None,
    ensures
        validate(def, args) == Err::<(), InvalidArgumentsView>(
            InvalidArgumentsView::UnrecognizedArgument {
                name: args.subcommand->0.name,
                kind: ArgumentKind::Command,
            },
        ),
{
}

/// A failure is final: if the tree fails when it is cut below some level, the whole tree
/// fails with the same error. What stands below the level that failed has no say.
pub proof fn lemma_failure_is_final(def: CommandView, args: ArgsView, depth: nat)
    requires
        validate(def, cut(args, depth)) is Err,
    ensures
        validate(def, args) == validate(def, cut(args, depth)),
    decreases depth,
{
    match args.subcommand {
        Some(child) => {
            if depth > 0 && check_level(def, args) is Ok {
                match def.find_command(child.name) {
                    Some(sub) => {
                        lemma_failure_is_final(sub, *child, (depth - 1) as nat);
                    },
                    None => {},
                }
            }
        },
        None => {},
    }
}

/// Whether `name` is the canonical name of a flag of `def`.
pub open spec fn is_canonical_flag(def: CommandView, name: Seq<char>) -> bool {
    exists|i: int| 0 <= i < def.flags.len() && (#[trigger] def.flags[i]).name() == name
}

/// Whether `name` is the canonical name of a prop of `def`.
pub open spec fn is_canonical_prop(def: CommandView, name: Seq<char>) -> bool {
    exists|i: int| 0 <= i < def.props.len() && (#[trigger] def.props[i]).name() == name
}

/// Canonical flags of known flags are canonical names of the definition.
proof fn lemma_canonical_flags_known(def: CommandView, flags: Seq<Seq<char>>, i: int)
    requires
        first_match(flags, def.unknown_flag()) == flags.len(),
        0 <= i < canonical_flags(def, flags).len(),
    ensures
        is_canonical_flag(def, canonical_flags(def, flags)[i]),
    decreases flags.len(),
{
    lemma_first_match(flags, def.unknown_flag());
    if flags.len() > 0 {
        let front = flags.drop_last();
        let before = canonical_flags(def, front);
        lemma_first_match_is(front, def.unknown_flag(), front.len() as int);
        if i < before.len() {
            lemma_canonical_flags_known(def, front, i);
        } else {
            lemma_first_match(def.flags, super::flag_called(flags.last()));
        }
    }
}

/// Canonical props of known props are canonical names of the definition.
proof fn lemma_canonical_props_known(def: CommandView, props: Seq<(Seq<char>, Seq<char>)>, i: int)
    requires
        first_match(props, def.unknown_prop()) == props.len(),
        0 <= i < canonical_props(def, props).len(),
    ensures
        is_canonical_prop(def, canonical_props(def, props)[i].0),
    decreases props.len(),
{
    lemma_first_match(props, def.unknown_prop());
    if props.len() > 0 {
        let front = props.drop_last();
        let before = canonical_props(def, front);
        let key = def.canonical_prop(props.last().0);
        lemma_first_match_is(front, def.unknown_prop(), front.len() as int);
        lemma_first_match(def.props, super::prop_called(props.last().0));
        lemma_first_match(before, has_key(key));
        let at = first_match(before, has_key(key));
        if i < before.len() && i != at {
            lemma_canonical_props_known(def, front, i);
        }
    }
}

/// Resolving a valid tree leaves canonical names only: at the root every flag and every
/// prop key is the canonical name of a definition, and the subcommand has the canonical
/// name of a subcommand definition. The same holds below, since a valid tree is valid at
/// every level.
pub proof fn lemma_resolve_canonical(def: CommandView, args: ArgsView)
    requires
        validate(def, args) is Ok,
    ensures
        forall|i: int|
            0 <= i < resolve(def, args).flags.len() ==> is_canonical_flag(
                def,
                #[trigger] resolve(def, args).flags[i],
            ),
        forall|i: int|
            0 <= i < resolve(def, args).props.len() ==> is_canonical_prop(
                def,
                (#[trigger] resolve(def, args).props[i]).0,
            ),
        resolve(def, args).subcommand matches Some(child) ==> exists|i: int|
            0 <= i < def.commands.len() && (#[trigger] def.commands[i]).name() == child.name,
{
    lemma_first_match(args.flags, def.unknown_flag());
    lemma_first_match(args.props, def.unknown_prop());
    assert forall|i: int| 0 <= i < resolve(def, args).flags.len() implies is_canonical_flag(
        def,
        #[trigger] resolve(def, args).flags[i],
    ) by {
        lemma_canonical_flags_known(def, args.flags, i);
    }
    assert forall|i: int| 0 <= i < resolve(def, args).props.len() implies is_canonical_prop(
        def,
        (#[trigger] resolve(def, args).props[i]).0,
    ) by {
        lemma_canonical_props_known(def, args.props, i);
    }
    match args.subcommand {
        Some(child) => {
            lemma_first_match(def.commands, super::command_called(child.name));
        },
        None => {},
    }
}

/// A resolved tree is well formed, if the tree was valid or well formed before: at every
/// level no flag and no prop key occurs twice.
pub proof fn lemma_resolve_wf(def: CommandView, args: ArgsView)
    requires
        validate(def, args) is Ok || args.wf(),
    ensures
        resolve(def, args).wf(),
    decreases args,
{
    lemma_canonical_flags_wf(def, args.flags);
    lemma_canonical_props_wf(def, args.props);
    match args.subcommand {
        Some(child) => {
            match def.find_command(child.name) {
                Some(sub) => {
                    lemma_resolve_wf(sub, *child);
                    let below = resolve(sub, *child);
                    let renamed = ArgsView { name: sub.name(), ..below };
                    assert(renamed.wf() == below.wf());
                },
                None => {},
            }
        },
        None => {},
    }
}

/// Canonical flags hold no duplicate.
pub proof fn lemma_canonical_flags_wf(def: CommandView, flags: Seq<Seq<char>>)
    ensures
        canonical_flags(def, flags).no_duplicates(),
    decreases flags.len(),
{
    if flags.len() > 0 {
        lemma_canonical_flags_wf(def, flags.drop_last());
    }
}

/// Canonical props hold no key twice.
pub proof fn lemma_canonical_props_wf(def: CommandView, props: Seq<(Seq<char>, Seq<char>)>)
    ensures
        distinct_keys(canonical_props(def, props)),
    decreases props.len(),
{
    if props.len() > 0 {
        lemma_canonical_props_wf(def, props.drop_last());
        lemma_insert_prop_wf(
            canonical_props(def, props.drop_last()),
            def.canonical_prop(props.last().0),
            props.last().1,
        );
    }
}

impl Command {
    /// Checks the argument tree `cmd_args` against the definition `cmd_def`, level by
    /// level from the root down, and reports the first thing that is wrong.
    ///
    /// At each level every flag must be known, then every prop, then no required prop
    /// may be missing; then the subcommand, if there is one, must be known, and is checked
    /// in the same way against its own definition.
    pub fn validate(cmd_def: &Command, cmd_args: &Args) -> (r: Result<(), InvalidArguments>)
        ensures
            match r {
                Ok(_) => validate(cmd_def@, cmd_args@) is Ok,
                Err(e) => validate(cmd_def@, cmd_args@) == Err::<(), InvalidArgumentsView>(e@),
            },
        decreases cmd_args,
    {
        let ghost def = cmd_def@;
        let ghost args = cmd_args@;
        let flag_count = cmd_args.flags.len();
        let mut i: usize = 0;
        while i < flag_count
            invariant
                i <= flag_count == cmd_args.flags@.len(),
                def == cmd_def@,
                args == cmd_args@,
                forall|j: int| 0 <= j < i ==> !def.unknown_flag()(#[trigger] args.flags[j]),
            decreases flag_count - i,
        {
            match cmd_def.get_flag(cmd_args.flags[i].as_str()) {
                Some(_) => {},
                None => {
                    proof {
                        lemma_first_match_is(args.flags, def.unknown_flag(), i as int);
                    }
                    return Err(
                        InvalidArguments::UnrecognizedArgument {
                            name: cmd_args.flags[i].clone(),
                            kind: ArgumentKind::Flag,
                        },
                    );
                },
            }
            i = i + 1;
        }
        proof {
            lemma_first_match_is(args.flags, def.unknown_flag(), args.flags.len() as int);
        }
        let prop_count = cmd_args.props.len();
        let mut seen: Vec<&'static str> = Vec::new();
        let mut i: usize = 0;
        while i < prop_count
            invariant
                i <= prop_count == cmd_args.props@.len(),
                def == cmd_def@,
                args == cmd_args@,
                first_match(args.flags, def.unknown_flag()) == args.flags.len(),
                forall|j: int| 0 <= j < i ==> !def.unknown_prop()(#[trigger] args.props[j]),
                seen.deep_view() == def.observed(args.props.take(i as int)),
            decreases prop_count - i,
        {
            let ghost before = seen.deep_view();
            match cmd_def.get_prop(cmd_args.props[i].0.as_str()) {
                Some(prop) => {
                    seen.push(prop.name());
                    proof {
                        assert(def.observed(args.props.take(i + 1)) =~= before.push(
                            def.canonical_prop(args.props[i as int].0),
                        ));
                    }
                },
                None => {
                    proof {
                        lemma_first_match_is(args.props, def.unknown_prop(), i as int);
                    }
                    return Err(
                        InvalidArguments::UnrecognizedArgument {
                            name: cmd_args.props[i].0.clone(),
                            kind: ArgumentKind::Prop,
                        },
                    );
                },
            }
            i = i + 1;
        }
        proof {
            lemma_first_match_is(args.props, def.unknown_prop(), args.props.len() as int);
        }
        let ghost observed = def.observed(args.props);
        let def_count = cmd_def.props.len();
        let mut i: usize = 0;
        while i < def_count
            invariant
                i <= def_count == cmd_def.props@.len(),
                def == cmd_def@,
                args == cmd_args@,
                observed == def.observed(args.props),
                seen.deep_view() == observed,
                first_match(args.flags, def.unknown_flag()) == args.flags.len(),
                first_match(args.props, def.unknown_prop()) == args.props.len(),
                forall|j: int| 0 <= j < i ==> !missing_from(observed)(#[trigger] def.props[j]),
            decreases def_count - i,
        {
            let prop = &cmd_def.props[i];
            if prop.is_required() && !names_contain(&seen, prop.name()) {
                proof {
                    lemma_first_match_is(def.props, missing_from(observed), i as int);
                }
                return Err(InvalidArguments::MissingRequiredOptions(prop.name().to_owned()));
            }
            i = i + 1;
        }
        proof {
            lemma_first_match_is(def.props, missing_from(observed), def.props.len() as int);
        }
        match &cmd_args.subcommand {
            None => Ok(()),
            Some(child) => {
                assert(args.subcommand == Some(Box::new(child@)));
                match cmd_def.get_subcommand(child.name.as_str()) {
                    None => Err(
                        InvalidArguments::UnrecognizedArgument {
                            name: child.name.clone(),
                            kind: ArgumentKind::Command,
                        },
                    ),
                    Some(sub) => Command::validate(sub, child),
                }
            },
        }
    }

    /// Rewrites every name in the argument tree `cmd_args` to the canonical name that the
    /// definition `cmd_def` gives it: flags and props at every level, and the names of the
    /// subcommands.
    ///
    /// This is meant for a tree that `validate` has accepted. A name that the definition
    /// does not know is left as it is.
    pub fn resolve_aliases(cmd_def: &Command, cmd_args: &mut Args)
        ensures
            final(cmd_args)@ == resolve(cmd_def@, old(cmd_args)@),
            old(cmd_args)@.wf() ==> final(cmd_args)@.wf(),
        decreases *old(cmd_args),
    {
        let ghost def = cmd_def@;
        let ghost args = cmd_args@;
        proof {
            if args.wf() {
                lemma_resolve_wf(def, args);
            }
        }
        let flag_count = cmd_args.flags.len();
        let mut flags: Vec<String> = Vec::new();
        let mut i: usize = 0;
        while i < flag_count
            invariant
                i <= flag_count == cmd_args.flags@.len(),
                def == cmd_def@,
                args == cmd_args@,
                *cmd_args == *old(cmd_args),
                flags.deep_view() == canonical_flags(def, args.flags.take(i as int)),
            decreases flag_count - i,
        {
            proof {
                assert(args.flags.take(i + 1).drop_last() =~= args.flags.take(i as int));
            }
            let canonical = match cmd_def.get_flag(cmd_args.flags[i].as_str()) {
                Some(flag) => flag.name().to_owned(),
                None => cmd_args.flags[i].clone(),
            };
            add_flag(&mut flags, canonical);
            i = i + 1;
        }
        let prop_count = cmd_args.props.len();
        let mut props: Vec<(String, String)> = Vec::new();
        let mut i: usize = 0;
        while i < prop_count
            invariant
                i <= prop_count == cmd_args.props@.len(),
                def == cmd_def@,
                args == cmd_args@,
                *cmd_args == *old(cmd_args),
                props.deep_view() == canonical_props(def, args.props.take(i as int)),
            decreases prop_count - i,
        {
            proof {
                assert(args.props.take(i + 1).drop_last() =~= args.props.take(i as int));
            }
            let canonical = match cmd_def.get_prop(cmd_args.props[i].0.as_str()) {
                Some(prop) => prop.name().to_owned(),
                None => cmd_args.props[i].0.clone(),
            };
            set_prop(&mut props, canonical, cmd_args.props[i].1.clone());
            i = i + 1;
        }
        proof {
            assert(args.flags.take(args.flags.len() as int) =~= args.flags);
            assert(args.props.take(args.props.len() as int) =~= args.props);
        }
        cmd_args.flags = flags;
        cmd_args.props = props;
        let ghost mut below = args;
        match &mut cmd_args.subcommand {
            Some(child) => {
                proof {
                    below = child@;
                }
                match cmd_def.get_subcommand(child.name.as_str()) {
                    Some(sub) => {
                        Command::resolve_aliases(sub, child);
                        child.name = sub.name().to_owned();
                        assert(child@ == ArgsView { name: sub@.name(), ..resolve(sub@, below) });
                    },
                    None => {},
                }
            },
            None => {},
        }
    }

    /// Parses the command line arguments `items`, the first of which is the name of the
    /// program, and validates that the parsed structure adheres to this command
    /// definition. The tree that is returned holds canonical names only.
    pub fn parse_from(&self, items: &[&str]) -> (r: Result<Args, InvalidArguments>)
        ensures
            match r {
                Ok(args) => validate(self@, tree(views(items@))) is Ok && args@ == resolve(
                    self@,
                    tree(views(items@)),
                ) && args@.wf(),
                Err(e) => validate(self@, tree(views(items@))) == Err::<(), InvalidArgumentsView>(
                    e@,
                ),
            },
    {
        let mut args = Args::parse_from(items);
        match Command::validate(self, &args) {
            Ok(_) => {
                proof {
                }
                Command::resolve_aliases(self, &mut args);
                Ok(args)
            },
            Err(e) => Err(e),
        }
    }
}

} // verus!
