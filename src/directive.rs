//! The directive mini-format: `key=value` words and flag lists found in file
//! name suffixes and in `# :` comment lines of shell fragments.
use vstd::prelude::*;
use crate::flags::{FnFlag, FlagSet, flag_named, upper_of};
use crate::model::{Initial, effective_alias};
use crate::pattern::opt_view;
use crate::text::{
    join, join_seq, split_char, split_seq, split_words, starts_with, strip_prefix, subst,
    substitute, views, words,
};

verus! {

/// `f` with `x` added at the end unless already there.
pub open spec fn set_insert(f: Seq<FnFlag>, x: FnFlag) -> Seq<FnFlag> {
    if f.contains(x) {
        f
    } else {
        f.push(x)
    }
}

/// `flags` with each of `toks` that names a flag (in any case) added, in order.
pub open spec fn add_flags(flags: Seq<FnFlag>, toks: Seq<Seq<char>>) -> Seq<FnFlag>
    decreases toks.len(),
{
    if toks.len() == 0 {
        flags
    } else {
        let f = add_flags(flags, toks.drop_last());
        match flag_named(upper_of(toks.last())) {
            Some(x) => set_insert(f, x),
            None => f,
        }
    }
}

/// Adds the flags of a comma-separated list; words that name no flag are skipped.
pub fn parse_file_flags(val: &str, flags: &mut FlagSet)
    ensures
        final(flags)@ == add_flags(old(flags)@, split_seq(val@, ',')),
{
    let toks = split_char(val, ',');
    let mut i: usize = 0;
    assert(views(toks@).subrange(0, 0) =~= Seq::<Seq<char>>::empty());
    while i < toks.len()
        invariant
            i <= toks@.len(),
            views(toks@) == split_seq(val@, ','),
            flags@ == add_flags(old(flags)@, views(toks@).subrange(0, i as int)),
        decreases toks@.len() - i,
    {
        assert(views(toks@).subrange(0, i + 1).drop_last() =~= views(toks@).subrange(0, i as int));
        assert(views(toks@).subrange(0, i + 1).last() == toks@[i as int]@);
        if let Some(f) = FnFlag::parse(toks[i].as_str()) {
            flags.insert(f);
        }
        i = i + 1;
    }
    assert(views(toks@).subrange(0, toks@.len() as int) =~= views(toks@));
}

/// Whether `c` is alphabetic or numeric as Unicode defines it.
pub uninterp spec fn alnum(c: char) -> bool;

/// Relies on `char::is_alphanumeric`: the result depends on the character alone.
#[verifier::external_body]
fn is_alnum(c: char) -> (r: bool)
    ensures
        r == alnum(c),
{
    c.is_alphanumeric()
}

/// The alphanumeric characters and underscores of `s`, in order.
pub open spec fn ident_chars(s: Seq<char>) -> Seq<char>
    decreases s.len(),
{
    if s.len() == 0 {
        s
    } else if alnum(s.last()) || s.last() == '_' {
        ident_chars(s.drop_last()).push(s.last())
    } else {
        ident_chars(s.drop_last())
    }
}

/// The name derived from a literal command.
pub fn ident_of(s: &str) -> (r: String)
    ensures
        r@ == ident_chars(s@),
{
    let n = s.unicode_len();
    let mut out = String::new();
    let mut i: usize = 0;
    assert(s@.subrange(0, 0) =~= Seq::<char>::empty());
    while i < n
        invariant
            n == s@.len(),
            i <= n,
            out@ == ident_chars(s@.subrange(0, i as int)),
        decreases n - i,
    {
        assert(s@.subrange(0, i + 1).drop_last() =~= s@.subrange(0, i as int));
        let c = s.get_char(i);
        if is_alnum(c) || c == '_' {
            let piece = s.substring_char(i, i + 1);
            out.append(piece);
            assert(piece@ =~= seq![c]);
            assert(out@ =~= ident_chars(s@.subrange(0, i + 1)));
        }
        i = i + 1;
    }
    assert(s@.subrange(0, n as int) =~= s@);
    out
}

/// Reading state of a directive: what the words read so far have set.
pub struct DirectiveState {
    pub name: Option<Seq<char>>,
    pub alias: Option<Seq<char>>,
    /// After `desc=`, the following words belong to the description until
    /// the next word with a recognized prefix.
    pub capturing: bool,
    pub desc_parts: Seq<Seq<char>>,
    pub flags: Seq<FnFlag>,
    /// An unprefixed word group has been read as the flag list.
    pub flags_read: bool,
    pub binds: Seq<Seq<char>>,
    pub cmd: Option<Seq<char>>,
}

pub open spec fn directive_start() -> DirectiveState {
    DirectiveState {
        name: None,
        alias: None,
        capturing: false,
        desc_parts: Seq::empty(),
        flags: Seq::empty(),
        flags_read: false,
        binds: Seq::empty(),
        cmd: None,
    }
}

/// `w` after the prefix `p`.
pub open spec fn after(w: Seq<char>, p: Seq<char>) -> Seq<char> {
    w.subrange(p.len() as int, w.len() as int)
}

/// The effect of one word of a directive.
pub open spec fn directive_step(st: DirectiveState, w: Seq<char>) -> DirectiveState {
    if starts_with(w, "name="@) {
        DirectiveState { name: Some(after(w, "name="@)), capturing: false, ..st }
    } else if starts_with(w, "alias="@) {
        DirectiveState { alias: Some(after(w, "alias="@)), capturing: false, ..st }
    } else if starts_with(w, "desc="@) {
        DirectiveState { capturing: true, desc_parts: st.desc_parts.push(after(w, "desc="@)), ..st }
    } else if starts_with(w, "binds="@) {
        DirectiveState { binds: st.binds + split_seq(after(w, "binds="@), ','), capturing: false, ..st }
    } else if starts_with(w, "cmd="@) {
        DirectiveState {
            flags: set_insert(st.flags, FnFlag::CMD),
            name: if st.name is Some { st.name } else { Some(ident_chars(after(w, "cmd="@))) },
            cmd: Some(after(w, "cmd="@)),
            capturing: false,
            ..st
        }
    } else if st.capturing {
        DirectiveState { desc_parts: st.desc_parts.push(w), ..st }
    } else if starts_with(w, "."@) {
        st
    } else if st.flags_read {
        st
    } else {
        let val = if starts_with(w, "flags="@) { after(w, "flags="@) } else { w };
        DirectiveState { flags: add_flags(st.flags, split_seq(val, ',')), flags_read: true, ..st }
    }
}

/// The state after reading the words `ws` in order.
pub open spec fn directive_run(ws: Seq<Seq<char>>) -> DirectiveState
    decreases ws.len(),
{
    if ws.len() == 0 {
        directive_start()
    } else {
        directive_step(directive_run(ws.drop_last()), ws.last())
    }
}

/// The view of a parsed directive.
pub struct DirectiveV {
    pub name: Option<Seq<char>>,
    pub alias: Option<Seq<char>>,
    pub desc: Option<Seq<char>>,
    pub flags: Seq<FnFlag>,
    pub binds: Seq<Seq<char>>,
    pub cmd: Option<Seq<char>>,
}

/// What a directive text sets.
pub open spec fn directive_of(ext: Option<Seq<char>>) -> DirectiveV {
    let st = match ext {
        Some(e) => directive_run(words(e)),
        None => directive_start(),
    };
    DirectiveV {
        name: st.name,
        alias: st.alias,
        desc: if st.desc_parts.len() > 0 { Some(join_seq(st.desc_parts, " "@)) } else { None },
        flags: st.flags,
        binds: st.binds,
        cmd: st.cmd,
    }
}

/// A parsed directive.
#[derive(Debug)]
pub struct Directive {
    pub name: Option<String>,
    pub alias: Option<String>,
    pub desc: Option<String>,
    pub flags: FlagSet,
    pub binds: Vec<String>,
    pub cmd: Option<String>,
}

impl View for Directive {
    type V = DirectiveV;

    open spec fn view(&self) -> DirectiveV {
        DirectiveV {
            name: opt_view(self.name),
            alias: opt_view(self.alias),
            desc: opt_view(self.desc),
            flags: self.flags@,
            binds: views(self.binds@),
            cmd: opt_view(self.cmd),
        }
    }
}

fn append_pieces(binds: &mut Vec<String>, pieces: Vec<String>)
    ensures
        views(final(binds)@) == views(old(binds)@) + views(pieces@),
{
    let mut i: usize = 0;
    while i < pieces.len()
        invariant
            i <= pieces@.len(),
            views(binds@) == views(old(binds)@) + views(pieces@).subrange(0, i as int),
        decreases pieces@.len() - i,
    {
        let ghost prev = binds@;
        let p = pieces[i].clone();
        binds.push(p);
        assert(views(binds@) =~= views(prev).push(pieces@[i as int]@));
        assert(views(pieces@).subrange(0, i + 1) =~= views(pieces@).subrange(0, i as int).push(pieces@[i as int]@));
        i = i + 1;
        assert(views(binds@) =~= views(old(binds)@) + views(pieces@).subrange(0, i as int));
    }
    assert(views(pieces@).subrange(0, pieces@.len() as int) =~= views(pieces@));
}

/// Parses a directive text: `name=`, `alias=`, `desc=` (taking the later
/// words up to the next word with one of these prefixes), `binds=`
/// (comma-separated), `cmd=` (a literal command, which also sets the
/// literal-command flag and, with no name given, names the function after
/// the command's identifier characters), words starting with `.` (ignored)
/// and one comma-separated flag list, the first unprefixed word (optionally
/// written `flags=`); later unprefixed words are ignored.
pub fn process_ext(ext: Option<&str>) -> (r: Directive)
    ensures
        r@ == directive_of(match ext { Some(e) => Some(e@), None => None }),
{
    let mut name: Option<String> = None;
    let mut alias: Option<String> = None;
    let mut capturing = false;
    let mut flags_read = false;
    let mut desc_parts: Vec<String> = Vec::new();
    let mut flags = FlagSet::new();
    let mut binds: Vec<String> = Vec::new();
    let mut cmd: Option<String> = None;
    assert(views(desc_parts@) =~= Seq::<Seq<char>>::empty());
    assert(views(binds@) =~= Seq::<Seq<char>>::empty());
    if let Some(e) = ext {
        let ws = split_words(e);
        let mut i: usize = 0;
        assert(views(ws@).subrange(0, 0) =~= Seq::<Seq<char>>::empty());
        assert(views(desc_parts@) =~= Seq::<Seq<char>>::empty());
        assert(views(binds@) =~= Seq::<Seq<char>>::empty());
        while i < ws.len()
            invariant
                i <= ws@.len(),
                views(ws@) == words(e@),
                (DirectiveState {
                    name: opt_view(name),
                    alias: opt_view(alias),
                    capturing,
                    desc_parts: views(desc_parts@),
                    flags: flags@,
                    flags_read,
                    binds: views(binds@),
                    cmd: opt_view(cmd),
                }) == directive_run(views(ws@).subrange(0, i as int)),
            decreases ws@.len() - i,
        {
            assert(views(ws@).subrange(0, i + 1).drop_last() =~= views(ws@).subrange(0, i as int));
            assert(views(ws@).subrange(0, i + 1).last() == ws@[i as int]@);
            let w = ws[i].as_str();
            let ghost dp = desc_parts@;
            if let Some(val) = strip_prefix(w, "name=") {
                name = Some(val);
                capturing = false;
            } else if let Some(val) = strip_prefix(w, "alias=") {
                alias = Some(val);
                capturing = false;
            } else if let Some(val) = strip_prefix(w, "desc=") {
                capturing = true;
                let ghost v = val@;
                desc_parts.push(val);
                assert(views(desc_parts@) =~= views(dp).push(v));
            } else if let Some(val) = strip_prefix(w, "binds=") {
                let pieces = split_char(val.as_str(), ',');
                append_pieces(&mut binds, pieces);
                capturing = false;
            } else if let Some(val) = strip_prefix(w, "cmd=") {
                flags.insert(FnFlag::CMD);
                if name.is_none() {
                    name = Some(ident_of(val.as_str()));
                }
                cmd = Some(val);
                capturing = false;
            } else if capturing {
                desc_parts.push(String::from_str(w));
                assert(views(desc_parts@) =~= views(dp).push(w@));
            } else if strip_prefix(w, ".").is_some() {
            } else if flags_read {
            } else {
                flags_read = true;
                match strip_prefix(w, "flags=") {
                    Some(val) => parse_file_flags(val.as_str(), &mut flags),
                    None => parse_file_flags(w, &mut flags),
                }
            }
            i = i + 1;
        }
        assert(views(ws@).subrange(0, ws@.len() as int) =~= views(ws@));
    }
    let desc = if desc_parts.len() > 0 {
        Some(join(&desc_parts, " "))
    } else {
        None
    };
    Directive { name, alias, desc, flags, binds, cmd }
}

/// The self references of a group in shell text, longest spelling first, and
/// what each stands for: the bare name or the effective alias.
pub open spec fn shell_keys() -> Seq<Seq<char>> {
    seq!["${this_name}"@, "${this}"@, "$this_name"@, "$this"@]
}

pub open spec fn shell_values(name: Seq<char>, alias: Seq<char>) -> Seq<Seq<char>> {
    seq![name, alias, name, alias]
}

/// Replaces the group's self references in a command: `${this}` and `$this`
/// by its effective alias, `${this_name}` and `$this_name` by its name.
pub fn replace_shell<T: Initial>(cmd_string: &str, pg: &T) -> (r: String)
    ensures
        r@ == subst(cmd_string@, shell_keys(), shell_values(pg.name_v(), effective_alias(pg.name_v(), pg.alias_v()))),
{
    let alias = pg.get_alias();
    let mut keys: Vec<String> = Vec::new();
    keys.push(String::from_str("${this_name}"));
    keys.push(String::from_str("${this}"));
    keys.push(String::from_str("$this_name"));
    keys.push(String::from_str("$this"));
    let mut vals: Vec<String> = Vec::new();
    vals.push(pg.get_name());
    vals.push(alias.clone());
    vals.push(pg.get_name());
    vals.push(alias);
    proof {
        reveal_strlit("${this_name}");
        reveal_strlit("${this}");
        reveal_strlit("$this_name");
        reveal_strlit("$this");
        assert(views(keys@) =~= shell_keys());
    }
    assert(views(vals@) =~= shell_values(pg.name_v(), effective_alias(pg.name_v(), pg.alias_v())));
    substitute(cmd_string, &keys, &vals)
}

} // verus!
