//! Which plugins are loaded, and which native ones are switched off.

use vstd::prelude::*;

use crate::lists::{push_name, with_all};
use crate::text::{
    chars_of, opt_str, parted_at_first, same, split, split_by, starts_with, string_of, strip_prefix,
    strip_prefixes,
    texts, texts_push, trim, trimmed, unprefixed,
};

verus! {

/// The environment variable that lists native plugins to switch off, separated
/// by commas or blanks.
pub const DISABLE_PLUGINS_ENV: &'static str = "PYTEST_RS_DISABLE_PLUGINS";

/// What a message starts with that is printed before the program ends with
/// exit code 0.
pub const EXIT_ZERO_SENTINEL: &'static str = "\x00__exit_zero__\x00";

// ---------------------------------------------------------------------------
// Model
// ---------------------------------------------------------------------------

/// `spec` names the plugin: by its bare name, or with a "pytest_" or "pytest-"
/// before it.
pub open spec fn names_plugin(spec_text: Seq<char>, plugin: Seq<char>) -> bool {
    ||| trimmed(spec_text) == plugin
    ||| unprefixed(unprefixed(trimmed(spec_text), "pytest_"@), "pytest-"@) == plugin
}

/// Some `-p no:NAME` switches the plugin off.
pub open spec fn off_by_option(plugin: Seq<char>, opts: Seq<Seq<char>>) -> bool {
    exists|i: int|
        0 <= i < opts.len() && "no:"@.is_prefix_of(#[trigger] opts[i]) && names_plugin(
            opts[i].skip(3),
            plugin,
        )
}

/// The pieces of a list that commas or blanks separate; the piece at the end
/// of the text so far is `word`.
pub open spec fn pieces_from(s: Seq<char>, word: Seq<char>) -> Seq<Seq<char>>
    decreases s.len(),
{
    if s.len() == 0 {
        seq![word]
    } else if s[0] == ',' || s[0] == ' ' {
        seq![word] + pieces_from(s.skip(1), seq![])
    } else {
        pieces_from(s.skip(1), word.push(s[0]))
    }
}

/// The environment switches the plugin off.
pub open spec fn off_by_env(plugin: Seq<char>, value: Seq<char>) -> bool {
    let pieces = pieces_from(value, seq![]);
    exists|i: int|
        0 <= i < pieces.len() && (#[trigger] pieces[i]).len() > 0 && names_plugin(pieces[i], plugin)
}

/// The plugin is switched off, by an option or by the environment.
pub open spec fn is_off(
    plugin: Seq<char>,
    opts: Seq<Seq<char>>,
    env: Option<Seq<char>>,
) -> bool {
    off_by_option(plugin, opts) || (env matches Some(value) && off_by_env(plugin, value))
}

/// The options that name a plugin to load.
pub open spec fn to_load(opts: Seq<Seq<char>>) -> Seq<Seq<char>>
    decreases opts.len(),
{
    if opts.len() == 0 {
        seq![]
    } else {
        let before = to_load(opts.drop_last());
        if "no:"@.is_prefix_of(opts.last()) {
            before
        } else {
            before.push(opts.last())
        }
    }
}

/// The plugins that options forbid.
pub open spec fn to_block(opts: Seq<Seq<char>>) -> Seq<Seq<char>>
    decreases opts.len(),
{
    if opts.len() == 0 {
        seq![]
    } else {
        let before = to_block(opts.drop_last());
        if "no:"@.is_prefix_of(opts.last()) {
            before.push(opts.last().skip(3))
        } else {
            before
        }
    }
}

/// The pieces without surrounding blanks, those that are left.
pub open spec fn filled_pieces(pieces: Seq<Seq<char>>) -> Seq<Seq<char>>
    decreases pieces.len(),
{
    if pieces.len() == 0 {
        seq![]
    } else {
        let before = filled_pieces(pieces.drop_last());
        let piece = trimmed(pieces.last());
        if piece.len() == 0 {
            before
        } else {
            before.push(piece)
        }
    }
}

/// The plugins to load by name: those of the options, and the others of the
/// environment.
pub open spec fn named_of(opts: Seq<Seq<char>>, env: Option<Seq<char>>) -> Seq<Seq<char>> {
    match env {
        Some(value) => with_all(to_load(opts), filled_pieces(split_by(value, ","@))),
        None => to_load(opts),
    }
}

// ---------------------------------------------------------------------------
// Executable functions
// ---------------------------------------------------------------------------

fn names(spec_text: &str, plugin: &str) -> (r: bool)
    ensures
        r == names_plugin(spec_text@, plugin@),
{
    let given = trim(spec_text);
    if same(given.as_str(), plugin) {
        return true;
    }
    let bare = strip_prefixes(given.as_str(), "pytest_");
    let bare = strip_prefixes(bare.as_str(), "pytest-");
    same(bare.as_str(), plugin)
}

/// The pieces of a list that commas or blanks separate.
fn pieces(value: &str) -> (r: Vec<String>)
    ensures
        texts(r@) == pieces_from(value@, seq![]),
{
    let cs = chars_of(value);
    let n: usize = cs.len();
    let mut r: Vec<String> = Vec::new();
    let mut from: usize = 0;
    let mut i: usize = 0;
    assert(cs@.skip(0) =~= value@);
    assert(cs@.subrange(0, 0) =~= seq![]);
    assert(texts(r@) + pieces_from(cs@.skip(0), seq![]) =~= pieces_from(value@, seq![]));
    while i < n
        invariant
            n == cs@.len(),
            from <= i <= n,
            texts(r@) + pieces_from(cs@.skip(i as int), cs@.subrange(from as int, i as int))
                == pieces_from(value@, seq![]),
        decreases n - i,
    {
        let ghost rest = cs@.skip(i as int);
        assert(rest.skip(1) =~= cs@.skip(i + 1));
        if cs[i] == ',' || cs[i] == ' ' {
            let piece = string_of(cs.as_slice(), from, i);
            let ghost before = texts(r@);
            let ghost later = pieces_from(cs@.skip(i + 1), seq![]);
            proof {
                texts_push(r@, piece);
                assert(before + (seq![piece@] + later) =~= before.push(piece@) + later);
            }
            r.push(piece);
            from = i + 1;
            assert(cs@.subrange(from as int, i + 1) =~= seq![]);
        } else {
            assert(cs@.subrange(from as int, i as int).push(cs@[i as int]) =~= cs@.subrange(
                from as int,
                i + 1,
            ));
        }
        i += 1;
    }
    let piece = string_of(cs.as_slice(), from, n);
    proof {
        texts_push(r@, piece);
        assert(cs@.skip(n as int).len() == 0);
        assert(texts(r@) + seq![piece@] =~= texts(r@).push(piece@));
    }
    r.push(piece);
    r
}

/// Whether a native plugin is switched off: by `-p no:NAME`, or by the value
/// of the environment variable `DISABLE_PLUGINS_ENV`.
pub fn plugin_is_disabled(plugin_name: &str, plugin_opts: &[String], env_value: Option<&str>) -> (r:
    bool)
    ensures
        r == is_off(plugin_name@, texts(plugin_opts@), opt_str(env_value)),
{
    proof {
        reveal_strlit("no:");
    }
    let n: usize = plugin_opts.len();
    let mut i: usize = 0;
    while i < n
        invariant
            n == plugin_opts@.len(),
            i <= n,
            "no:"@.len() == 3,
            forall|k: int|
                0 <= k < i ==> !("no:"@.is_prefix_of(#[trigger] texts(plugin_opts@)[k])
                    && names_plugin(texts(plugin_opts@)[k].skip(3), plugin_name@)),
        decreases n - i,
    {
        assert(texts(plugin_opts@)[i as int] == plugin_opts@[i as int]@);
        if let Some(disabled) = strip_prefix(plugin_opts[i].as_str(), "no:") {
            if names(disabled.as_str(), plugin_name) {
                return true;
            }
        }
        i += 1;
    }
    match env_value {
        Some(value) => {
            let parts = pieces(value);
            let m: usize = parts.len();
            let mut j: usize = 0;
            while j < m
                invariant
                    m == parts@.len(),
                    j <= m,
                    opt_str(env_value) == Some(value@),
                    texts(parts@) == pieces_from(value@, seq![]),
                    forall|k: int|
                        0 <= k < j ==> !((#[trigger] texts(parts@)[k]).len() > 0 && names_plugin(
                            texts(parts@)[k],
                            plugin_name@,
                        )),
                decreases m - j,
            {
                assert(texts(parts@)[j as int] == parts@[j as int]@);
                if !parts[j].as_str().is_empty() && names(parts[j].as_str(), plugin_name) {
                    assert(off_by_env(plugin_name@, value@));
                    return true;
                }
                j += 1;
            }
            false
        },
        None => false,
    }
}

/// The plugins to load by name: those of `-p NAME`, and those of the variable
/// `PYTEST_PLUGINS` that are not among them.
pub fn named_plugins(opts: &[String], env: Option<&str>) -> (r: Vec<String>)
    ensures
        texts(r@) == named_of(texts(opts@), opt_str(env)),
{
    let n: usize = opts.len();
    let mut r: Vec<String> = Vec::new();
    assert(texts(r@) =~= seq![]);
    assert(texts(opts@).take(0) =~= seq![]);
    let mut i: usize = 0;
    while i < n
        invariant
            n == opts@.len(),
            i <= n,
            texts(r@) == to_load(texts(opts@).take(i as int)),
        decreases n - i,
    {
        assert(texts(opts@).take(i + 1).drop_last() =~= texts(opts@).take(i as int));
        assert(texts(opts@).take(i + 1).last() == opts@[i as int]@);
        if !starts_with(opts[i].as_str(), "no:") {
            let opt = opts[i].clone();
            proof {
                texts_push(r@, opt);
            }
            r.push(opt);
        }
        i += 1;
    }
    assert(texts(opts@).take(n as int) =~= texts(opts@));
    if let Some(value) = env {
        proof {
            reveal_strlit(",");
        }
        let parts = split(value, ",");
        let m: usize = parts.len();
        let ghost all = texts(parts@);
        let ghost first = texts(r@);
        assert(all.take(0) =~= seq![]);
        let mut j: usize = 0;
        while j < m
            invariant
                m == parts@.len(),
                j <= m,
                all == texts(parts@),
                texts(r@) == with_all(first, filled_pieces(all.take(j as int))),
            decreases m - j,
        {
            assert(all.take(j + 1).drop_last() =~= all.take(j as int));
            assert(all.take(j + 1).last() == parts@[j as int]@);
            let piece = trim(parts[j].as_str());
            if !piece.as_str().is_empty() {
                let ghost before = filled_pieces(all.take(j as int));
                assert(before.push(piece@).drop_last() =~= before);
                push_name(&mut r, piece.as_str());
            }
            j += 1;
        }
        assert(all.take(m as int) =~= all);
    }
    r
}

/// The plugins that `-p no:NAME` forbids.
pub fn blocked_plugins(opts: &[String]) -> (r: Vec<String>)
    ensures
        texts(r@) == to_block(texts(opts@)),
{
    proof {
        reveal_strlit("no:");
    }
    let n: usize = opts.len();
    let mut r: Vec<String> = Vec::new();
    assert(texts(r@) =~= seq![]);
    assert(texts(opts@).take(0) =~= seq![]);
    let mut i: usize = 0;
    while i < n
        invariant
            n == opts@.len(),
            i <= n,
            "no:"@.len() == 3,
            texts(r@) == to_block(texts(opts@).take(i as int)),
        decreases n - i,
    {
        assert(texts(opts@).take(i + 1).drop_last() =~= texts(opts@).take(i as int));
        assert(texts(opts@).take(i + 1).last() == opts@[i as int]@);
        if let Some(name) = strip_prefix(opts[i].as_str(), "no:") {
            proof {
                texts_push(r@, name);
            }
            r.push(name);
        }
        i += 1;
    }
    assert(texts(opts@).take(n as int) =~= texts(opts@));
    r
}

/// What is printed before the program ends with exit code 0, where the message
/// is one for that.
pub fn exit_zero_message(message: &str) -> (r: Option<String>)
    ensures
        match r {
            Some(text) => message@ == EXIT_ZERO_SENTINEL@ + text@,
            None => !EXIT_ZERO_SENTINEL@.is_prefix_of(message@),
        },
{
    match strip_prefix(message, EXIT_ZERO_SENTINEL) {
        Some(text) => {
            assert(message@ =~= EXIT_ZERO_SENTINEL@ + text@);
            Some(text)
        },
        None => None,
    }
}

// ---------------------------------------------------------------------------
// Laws
// ---------------------------------------------------------------------------

/// An option either loads a plugin or forbids one.
pub proof fn options_load_or_block(opts: Seq<Seq<char>>)
    ensures
        to_load(opts).len() + to_block(opts).len() == opts.len(),
    decreases opts.len(),
{
    if opts.len() > 0 {
        options_load_or_block(opts.drop_last());
    }
}

/// A plugin that the options name is loaded, before those of the environment.
pub proof fn options_come_first(opts: Seq<Seq<char>>, env: Option<Seq<char>>)
    ensures
        to_load(opts).is_prefix_of(named_of(opts, env)),
{
    if let Some(value) = env {
        let more = filled_pieces(split_by(value, ","@));
        crate::lists::with_all_facts(to_load(opts), more);
        assert(to_load(opts) =~= named_of(opts, env).take(to_load(opts).len() as int));
    }
}

/// A plugin is named by its name, white space aside, and by its name behind
/// `pytest_` or `pytest-`.
pub proof fn plugins_are_named(plugin: Seq<char>)
    requires
        trimmed(plugin) == plugin,
        trimmed("pytest_"@ + plugin) == "pytest_"@ + plugin,
        trimmed("pytest-"@ + plugin) == "pytest-"@ + plugin,
        !"pytest_"@.is_prefix_of(plugin),
        !"pytest-"@.is_prefix_of(plugin),
    ensures
        names_plugin(plugin, plugin),
        names_plugin("pytest_"@ + plugin, plugin),
        names_plugin("pytest-"@ + plugin, plugin),
{
    reveal_strlit("pytest_");
    reveal_strlit("pytest-");
    let a = "pytest_"@;
    let b = "pytest-"@;
    assert(a =~= (a + plugin).subrange(0, 7));
    assert(b =~= (b + plugin).subrange(0, 7));
    assert((a + plugin).skip(7) =~= plugin);
    assert((b + plugin).skip(7) =~= plugin);
    assert(unprefixed(plugin, a) == plugin);
    assert(unprefixed(plugin, b) == plugin);
    assert(unprefixed(a + plugin, a) == unprefixed(plugin, a));
    assert(unprefixed(b + plugin, b) == unprefixed(plugin, b));
    assert((b + plugin)[6] == '-' && a[6] == '_');
    assert(!a.is_prefix_of(b + plugin)) by {
        if a.is_prefix_of(b + plugin) {
            assert((b + plugin).subrange(0, 7)[6] == a[6]);
        }
    }
    assert(unprefixed(b + plugin, a) == b + plugin);
}

/// `-p no:NAME` switches off the plugin that it names; nothing but such an option,
/// or the environment, does.
pub proof fn plugins_are_switched_off(
    plugin: Seq<char>,
    opts: Seq<Seq<char>>,
    env: Option<Seq<char>>,
    i: int,
    text: Seq<char>,
)
    ensures
        0 <= i < opts.len() && opts[i] == "no:"@ + text && names_plugin(text, plugin) ==> is_off(
            plugin,
            opts,
            env,
        ),
        is_off(plugin, opts, None) ==> exists|k: int|
            0 <= k < opts.len() && "no:"@.is_prefix_of(#[trigger] opts[k]) && names_plugin(
                opts[k].skip(3),
                plugin,
            ),
        env is Some && off_by_env(plugin, env->0) ==> is_off(plugin, opts, env),
{
    reveal_strlit("no:");
    if 0 <= i < opts.len() && opts[i] == "no:"@ + text && names_plugin(text, plugin) {
        assert("no:"@ =~= opts[i].subrange(0, 3));
        assert(opts[i].skip(3) =~= text);
        assert(off_by_option(plugin, opts));
    }
}

/// The environment names plugins with commas or spaces between them: a name before
/// such a mark is one of them.
pub proof fn environment_names_are_parted(word: Seq<char>, c: char, rest: Seq<char>)
    requires
        !word.contains(',') && !word.contains(' '),
        c == ',' || c == ' ',
    ensures
        pieces_from(word, Seq::empty()) == seq![word],
        pieces_from(word.push(c) + rest, Seq::empty()) == seq![word] + pieces_from(
            rest,
            Seq::empty(),
        ),
{
    let none = Seq::<char>::empty();
    piece_is_read(word, none, none);
    assert(word + none =~= word);
    assert(none + word =~= word);
    piece_is_read(word, seq![c] + rest, none);
    assert(word + (seq![c] + rest) =~= word.push(c) + rest);
    assert((seq![c] + rest)[0] == c);
    assert((seq![c] + rest).skip(1) =~= rest);
}

proof fn piece_is_read(word: Seq<char>, rest: Seq<char>, read: Seq<char>)
    requires
        !word.contains(',') && !word.contains(' '),
    ensures
        pieces_from(word + rest, read) == pieces_from(rest, read + word),
    decreases word.len(),
{
    if word.len() == 0 {
        assert(word + rest =~= rest);
        assert(read + word =~= read);
    } else {
        assert(word.contains(word[0]));
        assert((word + rest)[0] == word[0]);
        assert((word + rest).skip(1) =~= word.skip(1) + rest);
        assert forall|k: int| 0 <= k < word.skip(1).len() implies word.skip(1)[k] != ','
            && word.skip(1)[k] != ' ' by {
            assert(word.contains(word[k + 1]));
        }
        piece_is_read(word.skip(1), rest, read.push(word[0]));
        assert(read.push(word[0]) + word.skip(1) =~= read + word);
    }
}

/// Each `-p` loads the plugin that it names, in order, unless it starts with `no:`;
/// then it blocks the plugin that is named behind it.
pub proof fn options_are_read_in_order(opts: Seq<Seq<char>>, last: Seq<char>)
    ensures
        to_load(Seq::empty()).len() == 0,
        to_block(Seq::empty()).len() == 0,
        !"no:"@.is_prefix_of(last) ==> to_load(opts.push(last)) == to_load(opts).push(last)
            && to_block(opts.push(last)) == to_block(opts),
        to_load(opts.push("no:"@ + last)) == to_load(opts),
        to_block(opts.push("no:"@ + last)) == to_block(opts).push(last),
        named_of(opts, None) == to_load(opts),
{
    reveal_strlit("no:");
    let off = "no:"@ + last;
    assert("no:"@ =~= off.subrange(0, 3));
    assert(off.skip(3) =~= last);
    assert(opts.push(last).drop_last() =~= opts);
    assert(opts.push(off).drop_last() =~= opts);
}

/// The environment names plugins to load with commas between them: each that is not
/// empty is loaded, unless an option named it already.
pub proof fn environment_loads_plugins(opts: Seq<Seq<char>>, name: Seq<char>, rest: Seq<char>)
    requires
        !name.contains(','),
        trimmed(name).len() > 0,
    ensures
        filled_pieces(seq![name]) == seq![trimmed(name)],
        filled_pieces(split_by(name + ","@ + rest, ","@)).contains(trimmed(name)),
        named_of(opts, Some(name + ","@ + rest)).contains(trimmed(name)),
{
    reveal_strlit(",");
    parted_at_first(name, ","@, rest);
    let pieces = split_by(name + ","@ + rest, ","@);
    let more = filled_pieces(pieces);
    assert(seq![name].drop_last() =~= seq![]);
    assert(filled_pieces(seq![name].drop_last()).len() == 0);
    assert(filled_pieces(seq![name]) =~= seq![trimmed(name)]);
    first_piece_is_kept(pieces);
    crate::lists::with_all_facts(to_load(opts), more);
}

proof fn first_piece_is_kept(pieces: Seq<Seq<char>>)
    requires
        pieces.len() > 0,
        trimmed(pieces[0]).len() > 0,
    ensures
        filled_pieces(pieces).contains(trimmed(pieces[0])),
    decreases pieces.len(),
{
    let init = pieces.drop_last();
    let before = filled_pieces(init);
    let all = filled_pieces(pieces);
    if init.len() > 0 {
        first_piece_is_kept(init);
        let k = choose|k: int| 0 <= k < before.len() && before[k] == trimmed(pieces[0]);
        assert(all[k] == trimmed(pieces[0]));
    } else {
        assert(all[before.len() as int] == trimmed(pieces[0]));
    }
}

/// The marks by which the plugins are steered.
pub proof fn steering_marks()
    ensures
        DISABLE_PLUGINS_ENV@ == "PYTEST_RS_DISABLE_PLUGINS"@,
        EXIT_ZERO_SENTINEL@ == "\x00__exit_zero__\x00"@,
{
}

} // verus!
