//! Groups ("plugins") and their functions, with their mathematical views.
use vstd::prelude::*;
use crate::flags::{
    FnFlag, FlagSet, checked_flags, first_run_mode, provision_flag, shell_function_flag,
};
use crate::pattern::opt_view;
use crate::text::{cat, contains_ws, no_ws, views};

verus! {

/// What can go wrong while scanning, parsing, merging and validating.
#[derive(Debug)]
pub enum ScanningError {
    /// A function name occurs twice in a group: the name and where it came from.
    DuplicateFunctionName(String, String),
    /// A group name occurs twice.
    DuplicatePluginIdentifier(String),
    /// A function that cannot be generated, with the reason.
    InvalidFn(String),
    /// A group reference to a group that does not exist: the function's group
    /// and the missing group.
    MissingPlugin(String, String),
    /// A regular expression that does not compile: its text.
    InvalidPattern(String),
}

/// The view of an error.
pub enum ErrV {
    DuplicateFunctionName(Seq<char>, Seq<char>),
    DuplicatePluginIdentifier(Seq<char>),
    InvalidFn(Seq<char>),
    MissingPlugin(Seq<char>, Seq<char>),
    InvalidPattern(Seq<char>),
}

pub open spec fn err_view(e: ScanningError) -> ErrV {
    match e {
        ScanningError::DuplicateFunctionName(a, b) => ErrV::DuplicateFunctionName(a@, b@),
        ScanningError::DuplicatePluginIdentifier(a) => ErrV::DuplicatePluginIdentifier(a@),
        ScanningError::InvalidFn(a) => ErrV::InvalidFn(a@),
        ScanningError::MissingPlugin(a, b) => ErrV::MissingPlugin(a@, b@),
        ScanningError::InvalidPattern(a) => ErrV::InvalidPattern(a@),
    }
}

/// The view of a result that carries no value.
pub open spec fn res_view(r: Result<(), ScanningError>) -> Result<(), ErrV> {
    match r {
        Ok(()) => Ok(()),
        Err(e) => Err(err_view(e)),
    }
}

/// A group's or function's alias if set and non-empty, else its name.
pub open spec fn effective_alias(name: Seq<char>, alias: Option<Seq<char>>) -> Seq<char> {
    match alias {
        Some(a) => if a.len() > 0 { a } else { name },
        None => name,
    }
}

/// The alias as written, or a single space where there is none.
pub open spec fn alias_or_space(alias: Option<Seq<char>>) -> Seq<char> {
    match alias {
        Some(a) => a,
        None => " "@,
    }
}

/// The text of an optional string, or the empty text.
pub open spec fn or_empty(o: Option<Seq<char>>) -> Seq<char> {
    match o {
        Some(a) => a,
        None => Seq::empty(),
    }
}

pub fn clone_opt(o: &Option<String>) -> (r: Option<String>)
    ensures
        r == *o,
{
    match o {
        Some(s) => Some(s.clone()),
        None => None,
    }
}

pub fn clone_strings(v: &Vec<String>) -> (r: Vec<String>)
    ensures
        r@ == v@,
{
    let mut r: Vec<String> = Vec::new();
    let mut i: usize = 0;
    while i < v.len()
        invariant
            i <= v@.len(),
            r@ == v@.subrange(0, i as int),
        decreases v@.len() - i,
    {
        r.push(v[i].clone());
        i = i + 1;
        assert(r@ =~= v@.subrange(0, i as int));
    }
    assert(v@.subrange(0, v@.len() as int) =~= v@);
    r
}

/// Name, alias and description, shared by groups and functions.
pub trait Initial {
    spec fn name_v(&self) -> Seq<char>;

    spec fn alias_v(&self) -> Option<Seq<char>>;

    spec fn desc_v(&self) -> Option<Seq<char>>;

    fn get_name(&self) -> (r: String)
        ensures
            r@ == self.name_v();

    /// The effective alias.
    fn get_alias(&self) -> (r: String)
        ensures
            r@ == effective_alias(self.name_v(), self.alias_v());

    fn get_alias_or_space(&self) -> (r: String)
        ensures
            r@ == alias_or_space(self.alias_v());

    fn get_desc(&self) -> (r: Option<String>)
        ensures
            opt_view(r) == self.desc_v();
}

fn alias_of(name: &String, alias: &Option<String>) -> (r: String)
    ensures
        r@ == effective_alias(name@, opt_view(*alias)),
{
    match alias {
        Some(a) => {
            if a.unicode_len() > 0 {
                a.clone()
            } else {
                name.clone()
            }
        },
        None => name.clone(),
    }
}

fn space_alias(alias: &Option<String>) -> (r: String)
    ensures
        r@ == alias_or_space(opt_view(*alias)),
{
    match alias {
        Some(a) => a.clone(),
        None => String::from_str(" "),
    }
}

/// The view of a function.
pub struct FunV {
    pub name: Seq<char>,
    pub bin: Option<Seq<char>>,
    pub alias: Option<Seq<char>>,
    pub desc: Option<Seq<char>>,
    pub cmd: Option<Seq<char>>,
    pub flags: Seq<FnFlag>,
    pub binds: Seq<Seq<char>>,
    pub fstring: Option<Seq<char>>,
}

/// One invokable unit of a group.
#[derive(Debug)]
pub struct Fun {
    pub name: String,
    /// The executable behind the function, for scanned scripts.
    pub bin: Option<String>,
    pub alias: Option<String>,
    pub desc: Option<String>,
    /// A literal command that overrides the generated invocation.
    pub cmd: Option<String>,
    pub flags: FlagSet,
    pub binds: Vec<String>,
    /// The declaration the function was read from, for environment exports.
    pub fstring: Option<String>,
}

impl View for Fun {
    type V = FunV;

    open spec fn view(&self) -> FunV {
        FunV {
            name: self.name@,
            bin: opt_view(self.bin),
            alias: opt_view(self.alias),
            desc: opt_view(self.desc),
            cmd: opt_view(self.cmd),
            flags: self.flags@,
            binds: views(self.binds@),
            fstring: opt_view(self.fstring),
        }
    }
}

impl Initial for Fun {
    open spec fn name_v(&self) -> Seq<char> {
        self.name@
    }

    open spec fn alias_v(&self) -> Option<Seq<char>> {
        opt_view(self.alias)
    }

    open spec fn desc_v(&self) -> Option<Seq<char>> {
        opt_view(self.desc)
    }

    fn get_name(&self) -> (r: String) {
        self.name.clone()
    }

    fn get_alias(&self) -> (r: String) {
        alias_of(&self.name, &self.alias)
    }

    fn get_alias_or_space(&self) -> (r: String) {
        space_alias(&self.alias)
    }

    fn get_desc(&self) -> (r: Option<String>) {
        clone_opt(&self.desc)
    }
}

/// The message of a function whose widget command holds whitespace.
pub open spec fn whitespace_message(name: Seq<char>) -> Seq<char> {
    "Widget command for "@ + name + " must be a valid identifier: Cannot contain whitespace"@
}

/// The command of `f` holds whitespace.
pub open spec fn cmd_has_ws(f: FunV) -> bool {
    f.cmd matches Some(c) && !no_ws(c)
}

/// Validation rejects `f`: it carries the widget flag and its command is not
/// a valid identifier (a group reference has its command cleared instead).
pub open spec fn check_rejects(f: FunV) -> bool {
    f.flags.contains(FnFlag::WG) && cmd_has_ws(f) && first_run_mode(f.flags) != Some(FnFlag::PG)
}

/// `f` after validation: one run-mode flag at most, widget promotion for key
/// bindings, and no alias or command on a group reference.
pub open spec fn checked(f: FunV) -> FunV {
    let group_ref = first_run_mode(f.flags) == Some(FnFlag::PG);
    FunV {
        flags: checked_flags(f.flags, f.binds.len() > 0),
        alias: if group_ref { None } else { f.alias },
        cmd: if group_ref { None } else { f.cmd },
        ..f
    }
}

/// `f` with the fields of `other` that are set, and `other`'s flags; the
/// command of an existing function is never replaced.
pub open spec fn merged(f: FunV, other: FunV) -> FunV {
    FunV {
        alias: if other.alias is Some { other.alias } else { f.alias },
        desc: if other.desc is Some { other.desc } else { f.desc },
        flags: other.flags,
        ..f
    }
}

impl Fun {
    /// A function with a name and nothing else.
    pub fn named(name: String) -> (r: Fun)
        ensures
            r@ == (FunV {
                name: name@,
                bin: None,
                alias: None,
                desc: None,
                cmd: None,
                flags: Seq::empty(),
                binds: Seq::empty(),
                fstring: None,
            }),
    {
        let r = Fun {
            name,
            bin: None,
            alias: None,
            desc: None,
            cmd: None,
            flags: FlagSet::new(),
            binds: Vec::new(),
            fstring: None,
        };
        assert(views(r.binds@) =~= Seq::<Seq<char>>::empty());
        r
    }

    /// Applies an override from the settings document.
    pub fn merge_from(&mut self, other: Fun)
        ensures
            final(self)@ == merged(old(self)@, other@),
    {
        if let Some(alias) = other.alias {
            self.alias = Some(alias);
        }
        if let Some(desc) = other.desc {
            self.desc = Some(desc);
        }
        self.flags = other.flags;
    }

    /// Whether the function is generated as a shell function.
    pub fn is_shell_function(&self) -> (r: bool)
        ensures
            r == exists|i: int| 0 <= i < self@.flags.len() && shell_function_flag(#[trigger] self@.flags[i]),
    {
        self.is_widget()
    }

    /// Whether the function is invoked through a provided name.
    pub fn does_provision(&self) -> (r: bool)
        ensures
            r == exists|i: int| 0 <= i < self@.flags.len() && provision_flag(#[trigger] self@.flags[i]),
    {
        let mut i: usize = 0;
        while i < self.flags.len()
            invariant
                i <= self.flags@.len(),
                forall|j: int| 0 <= j < i ==> !provision_flag(#[trigger] self.flags@[j]),
            decreases self.flags@.len() - i,
        {
            let f = self.flags.get(i);
            if (f.is_widget() || f.is_plugin()) && f != FnFlag::PG && f != FnFlag::WG {
                assert(provision_flag(self@.flags[i as int]));
                return true;
            }
            i = i + 1;
        }
        false
    }

    /// Whether the function is a widget, a group reference or a background job.
    pub fn is_widget(&self) -> (r: bool)
        ensures
            r == exists|i: int| 0 <= i < self@.flags.len() && shell_function_flag(#[trigger] self@.flags[i]),
    {
        let mut i: usize = 0;
        while i < self.flags.len()
            invariant
                i <= self.flags@.len(),
                forall|j: int| 0 <= j < i ==> !shell_function_flag(#[trigger] self.flags@[j]),
            decreases self.flags@.len() - i,
        {
            let f = self.flags.get(i);
            if f.is_widget() || f == FnFlag::PG || f == FnFlag::PBG {
                assert(shell_function_flag(self@.flags[i as int]));
                return true;
            }
            i = i + 1;
        }
        false
    }

    /// A widget command must be a valid identifier.
    pub fn check_cmd_whitespace(&self) -> (r: Result<(), ScanningError>)
        ensures
            r is Ok <==> !cmd_has_ws(self@),
            r matches Err(e) ==> e matches ScanningError::InvalidFn(m) && m@ == whitespace_message(self@.name),
    {
        if let Some(cmd) = &self.cmd {
            if contains_ws(cmd.as_str()) {
                let m = cat(&cat("Widget command for ", self.name.as_str()),
                    " must be a valid identifier: Cannot contain whitespace");
                proof {
                    assert(m@ =~= whitespace_message(self@.name));
                }
                return Err(ScanningError::InvalidFn(m));
            }
        }
        Ok(())
    }

    /// Validates the flags: keeps the first run-mode flag only, makes a
    /// function with key bindings and no run-mode flag a widget, and clears
    /// alias and command of a group reference. Nothing changes on error.
    pub fn check(&mut self) -> (r: Result<(), ScanningError>)
        ensures
            r is Err <==> check_rejects(old(self)@),
            r matches Err(e) ==> e matches ScanningError::InvalidFn(m) && m@ == whitespace_message(old(self)@.name),
            r is Err ==> final(self)@ == old(self)@,
            r is Ok ==> final(self)@ == checked(old(self)@),
    {
        let (kept, first) = crate::flags::check_flags(&self.flags, self.binds.len() > 0);
        if first != Some(FnFlag::PG) && self.flags.contains(FnFlag::WG) {
            self.check_cmd_whitespace()?;
        }
        if first == Some(FnFlag::PG) {
            self.alias = None;
            self.cmd = None;
        }
        self.flags = kept;
        Ok(())
    }
}

/// The view of a group.
pub struct PluginV {
    pub name: Seq<char>,
    pub path: Seq<char>,
    pub alias: Option<Seq<char>>,
    pub desc: Option<Seq<char>>,
    pub fns: Seq<FunV>,
    pub sources: Seq<Seq<char>>,
    pub fn_template: Option<Seq<char>>,
    pub fn_table_template: Option<Seq<char>>,
    pub binds: Seq<Seq<char>>,
}

/// A group of functions discovered from one directory.
#[derive(Debug)]
pub struct Plugin {
    pub name: String,
    pub path: String,
    pub alias: Option<String>,
    pub desc: Option<String>,
    /// The functions; no two share a name.
    pub fns: Vec<Fun>,
    /// Extra files to source, in order.
    pub sources: Vec<String>,
    pub fn_template: Option<String>,
    pub fn_table_template: Option<String>,
    pub binds: Vec<String>,
}

/// The views of a vector of functions.
pub open spec fn fun_views(v: Seq<Fun>) -> Seq<FunV> {
    v.map_values(|f: Fun| f@)
}

/// The names of a sequence of functions.
pub open spec fn fun_names(v: Seq<FunV>) -> Seq<Seq<char>> {
    v.map_values(|f: FunV| f.name)
}

/// No two functions share a name.
pub open spec fn names_unique(v: Seq<FunV>) -> bool {
    forall|i: int, j: int| 0 <= i < j < v.len() ==> (#[trigger] v[i]).name != (#[trigger] v[j]).name
}

impl View for Plugin {
    type V = PluginV;

    open spec fn view(&self) -> PluginV {
        PluginV {
            name: self.name@,
            path: self.path@,
            alias: opt_view(self.alias),
            desc: opt_view(self.desc),
            fns: fun_views(self.fns@),
            sources: views(self.sources@),
            fn_template: opt_view(self.fn_template),
            fn_table_template: opt_view(self.fn_table_template),
            binds: views(self.binds@),
        }
    }
}

impl Initial for Plugin {
    open spec fn name_v(&self) -> Seq<char> {
        self.name@
    }

    open spec fn alias_v(&self) -> Option<Seq<char>> {
        opt_view(self.alias)
    }

    open spec fn desc_v(&self) -> Option<Seq<char>> {
        opt_view(self.desc)
    }

    fn get_name(&self) -> (r: String) {
        self.name.clone()
    }

    fn get_alias(&self) -> (r: String) {
        alias_of(&self.name, &self.alias)
    }

    fn get_alias_or_space(&self) -> (r: String) {
        space_alias(&self.alias)
    }

    fn get_desc(&self) -> (r: Option<String>) {
        clone_opt(&self.desc)
    }
}

impl Plugin {
    /// A group is listed unless its alias is set to the empty text.
    pub fn is_proper(&self) -> (r: bool)
        ensures
            r == !(self@.alias matches Some(a) && a.len() == 0),
    {
        match &self.alias {
            Some(a) => a.unicode_len() != 0,
            None => true,
        }
    }
}

/// A group as the scanner first finds it.
#[derive(Debug)]
pub struct InitialPlugin {
    pub name: String,
    pub path: String,
    pub alias: Option<String>,
    pub desc: Option<String>,
}

impl Initial for InitialPlugin {
    open spec fn name_v(&self) -> Seq<char> {
        self.name@
    }

    open spec fn alias_v(&self) -> Option<Seq<char>> {
        opt_view(self.alias)
    }

    open spec fn desc_v(&self) -> Option<Seq<char>> {
        opt_view(self.desc)
    }

    fn get_name(&self) -> (r: String) {
        self.name.clone()
    }

    fn get_alias(&self) -> (r: String) {
        alias_of(&self.name, &self.alias)
    }

    fn get_alias_or_space(&self) -> (r: String) {
        space_alias(&self.alias)
    }

    fn get_desc(&self) -> (r: Option<String>) {
        clone_opt(&self.desc)
    }
}

impl InitialPlugin {
    /// The group holding `fns`, with no sources, bindings or templates yet.
    pub fn to_plugin(self, fns: Vec<Fun>) -> (r: Plugin)
        ensures
            r@ == (PluginV {
                name: self.name@,
                path: self.path@,
                alias: opt_view(self.alias),
                desc: opt_view(self.desc),
                fns: fun_views(fns@),
                sources: Seq::empty(),
                fn_template: None,
                fn_table_template: None,
                binds: Seq::empty(),
            }),
    {
        let r = Plugin {
            alias: self.alias,
            name: self.name,
            desc: self.desc,
            path: self.path,
            sources: Vec::new(),
            fns,
            fn_template: None,
            fn_table_template: None,
            binds: Vec::new(),
        };
        assert(views(r.sources@) =~= Seq::<Seq<char>>::empty());
        assert(views(r.binds@) =~= Seq::<Seq<char>>::empty());
        r
    }

    pub fn duplicate(&self) -> (r: InitialPlugin)
        ensures
            r.name@ == self.name@,
            r.path@ == self.path@,
            opt_view(r.alias) == opt_view(self.alias),
            opt_view(r.desc) == opt_view(self.desc),
    {
        InitialPlugin {
            name: self.name.clone(),
            path: self.path.clone(),
            alias: clone_opt(&self.alias),
            desc: clone_opt(&self.desc),
        }
    }
}

/// Index of the function named `name`.
pub fn find_fun(fns: &Vec<Fun>, name: &str) -> (r: Option<usize>)
    ensures
        r is None <==> !fun_names(fun_views(fns@)).contains(name@),
        r matches Some(i) ==> i < fns@.len() && fns@[i as int]@.name == name@
            && i == first_named(fun_names(fun_views(fns@)), name@),
{
    let mut i: usize = 0;
    while i < fns.len()
        invariant
            i <= fns@.len(),
            forall|j: int| 0 <= j < i ==> (#[trigger] fns@[j]).name@ != name@,
        decreases fns@.len() - i,
    {
        if crate::text::same_text(fns[i].name.as_str(), name) {
            assert(fun_names(fun_views(fns@))[i as int] == name@);
            proof {
                lemma_first_named(fun_names(fun_views(fns@)), name@, i as int);
            }
            return Some(i);
        }
        i = i + 1;
    }
    proof {
        if fun_names(fun_views(fns@)).contains(name@) {
            let k = choose|k: int| 0 <= k < fun_names(fun_views(fns@)).len() && fun_names(fun_views(fns@))[k] == name@;
            assert(fns@[k].name@ == name@);
        }
    }
    None
}

/// Where a function came from: its executable, its command or its declaration.
pub open spec fn origin_of(f: FunV) -> Seq<char> {
    match f.bin {
        Some(b) => b,
        None => match f.cmd {
            Some(c) => c,
            None => or_empty(f.fstring),
        },
    }
}

pub fn origin(f: &Fun) -> (r: String)
    ensures
        r@ == origin_of(f@),
{
    match &f.bin {
        Some(b) => b.clone(),
        None => match &f.cmd {
            Some(c) => c.clone(),
            None => match &f.fstring {
                Some(s) => s.clone(),
                None => String::new(),
            },
        },
    }
}

/// The information of a duplicate-name error: the new origin and the earlier one.
pub open spec fn duplicate_info(new_origin: Seq<char>, earlier: FunV) -> Seq<char> {
    new_origin + " conflicts with "@ + origin_of(earlier)
}

/// Insertion of `f` into a table, as a view: a taken name is reported with
/// the function's name, the new origin and the origin of the function
/// already there; a function that validation rejects is reported as
/// invalid; otherwise the validated function is added.
pub open spec fn insert_result(fns: Seq<FunV>, f: FunV, new_origin: Seq<char>) -> Result<Seq<FunV>, ErrV> {
    let names = fun_names(fns);
    if names.contains(f.name) {
        Err(ErrV::DuplicateFunctionName(f.name, duplicate_info(new_origin, fns[first_named(names, f.name)])))
    } else if check_rejects(f) {
        Err(ErrV::InvalidFn(whitespace_message(f.name)))
    } else {
        Ok(fns.push(checked(f)))
    }
}

/// Adds `f`, validated, unless its name is taken (reported with both
/// origins) or validation rejects it.
pub fn insert_fun(fns: &mut Vec<Fun>, f: Fun, new_origin: &str) -> (r: Result<(), ScanningError>)
    ensures
        ({
            let taken = fun_names(fun_views(old(fns)@)).contains(f@.name);
            &&& r is Err <==> taken || check_rejects(f@)
            &&& r is Err ==> final(fns)@ == old(fns)@
            &&& taken ==> (r matches Err(e) && e matches ScanningError::DuplicateFunctionName(n, info) && n@ == f@.name
                && exists|k: int| 0 <= k < old(fns)@.len() && (#[trigger] old(fns)@[k])@.name == f@.name
                    && info@ == duplicate_info(new_origin@, old(fns)@[k]@))
            &&& !taken && check_rejects(f@) ==> (r matches Err(e) && e matches ScanningError::InvalidFn(m)
                && m@ == whitespace_message(f@.name))
            &&& r is Ok ==> fun_views(final(fns)@) == fun_views(old(fns)@).push(checked(f@))
            &&& r is Ok ==> insert_result(fun_views(old(fns)@), f@, new_origin@) == Ok::<Seq<FunV>, ErrV>(fun_views(final(fns)@))
            &&& r matches Err(e) ==> insert_result(fun_views(old(fns)@), f@, new_origin@) == Err::<Seq<FunV>, ErrV>(err_view(e))
        }),
{
    match find_fun(fns, f.name.as_str()) {
        Some(k) => {
            let earlier = origin(&fns[k]);
            let info = cat(&cat(new_origin, " conflicts with "), earlier.as_str());
            assert(info@ =~= duplicate_info(new_origin@, fns@[k as int]@));
            Err(ScanningError::DuplicateFunctionName(f.name, info))
        },
        None => {
            let mut f = f;
            match f.check() {
                Ok(()) => {
                    let ghost fv = f@;
                    fns.push(f);
                    assert(fun_views(fns@) =~= fun_views(old(fns)@).push(fv));
                    Ok(())
                },
                Err(e) => Err(e),
            }
        },
    }
}

/// Index of the first occurrence of `name` in `names`.
pub open spec fn first_named(names: Seq<Seq<char>>, name: Seq<char>) -> int {
    choose|i: int| 0 <= i < names.len() && names[i] == name && forall|j: int| 0 <= j < i ==> names[j] != name
}

pub proof fn lemma_first_named(names: Seq<Seq<char>>, name: Seq<char>, i: int)
    requires
        0 <= i < names.len(),
        names[i] == name,
        forall|j: int| 0 <= j < i ==> names[j] != name,
    ensures
        first_named(names, name) == i,
{
    let k = first_named(names, name);
    if k < i {
        assert(names[k] != name);
    } else if k > i {
        assert(names[i] != name);
    }
}

impl Fun {
    /// A copy of the function.
    pub fn duplicate(&self) -> (r: Fun)
        ensures
            r@ == self@,
    {
        Fun {
            name: self.name.clone(),
            bin: clone_opt(&self.bin),
            alias: clone_opt(&self.alias),
            desc: clone_opt(&self.desc),
            cmd: clone_opt(&self.cmd),
            flags: self.flags.duplicate(),
            binds: clone_strings(&self.binds),
            fstring: clone_opt(&self.fstring),
        }
    }
}

/// A function with key bindings and no run-mode flag carries exactly one
/// run-mode flag after validation, the widget flag.
pub proof fn lemma_check_makes_widget(f: FunV)
    requires
        first_run_mode(f.flags) is None,
        f.binds.len() > 0,
    ensures
        crate::flags::run_modes(checked(f).flags) == seq![FnFlag::WG],
{
    crate::flags::lemma_binds_make_widget(f.flags);
}

/// Of several run-mode flags of a function, validation keeps exactly the
/// first one in the flag set's order, and every other flag.
pub proof fn lemma_check_keeps_first_run_mode(f: FunV)
    requires
        first_run_mode(f.flags) is Some,
    ensures
        crate::flags::run_modes(checked(f).flags) == seq![first_run_mode(f.flags)->0],
        crate::flags::other_flags(checked(f).flags) == crate::flags::other_flags(f.flags),
{
    crate::flags::lemma_first_run_mode_kept(f.flags, f.binds.len() > 0);
}

/// Every group of `v` has functions with distinct names.
pub open spec fn tables_unique(v: Seq<PluginV>) -> bool {
    forall|i: int| 0 <= i < v.len() ==> names_unique(#[trigger] v[i].fns)
}

/// Insertion keeps the names of a table distinct.
pub proof fn lemma_insert_unique()
    ensures
        forall|fns: Seq<FunV>, f: FunV, o: Seq<char>| #[trigger] insert_result(fns, f, o) is Ok && names_unique(fns)
            ==> names_unique(insert_result(fns, f, o)->Ok_0),
{
    assert forall|fns: Seq<FunV>, f: FunV, o: Seq<char>| #[trigger] insert_result(fns, f, o) is Ok && names_unique(fns)
        implies names_unique(insert_result(fns, f, o)->Ok_0) by {
        let r = insert_result(fns, f, o)->Ok_0;
        assert(r == fns.push(checked(f)));
        assert forall|i: int, j: int| 0 <= i < j < r.len() implies (#[trigger] r[i]).name != (#[trigger] r[j]).name by {
            if j == fns.len() {
                assert(fun_names(fns)[i] == fns[i].name);
                if fns[i].name == f.name {
                    assert(fun_names(fns).contains(f.name));
                }
            } else {
                assert(r[i] == fns[i] && r[j] == fns[j]);
            }
        }
    }
}

/// A name that occurs has a first occurrence.
pub proof fn lemma_first_named_exists(names: Seq<Seq<char>>, name: Seq<char>, i: int)
    requires
        0 <= i < names.len(),
        names[i] == name,
    ensures
        0 <= first_named(names, name) < names.len(),
        names[first_named(names, name)] == name,
    decreases i,
{
    if exists|j: int| 0 <= j < i && names[j] == name {
        let j = choose|j: int| 0 <= j < i && names[j] == name;
        lemma_first_named_exists(names, name, j);
    } else {
        assert(forall|j: int| 0 <= j < i ==> names[j] != name);
        lemma_first_named(names, name, i);
    }
}

/// Adding a copy of `f` to a table, as a view: a taken name is reported as
/// by `insert_result`; otherwise `f` is added as it is.
pub open spec fn copy_result(fns: Seq<FunV>, f: FunV, new_origin: Seq<char>) -> Result<Seq<FunV>, ErrV> {
    let names = fun_names(fns);
    if names.contains(f.name) {
        Err(ErrV::DuplicateFunctionName(f.name, duplicate_info(new_origin, fns[first_named(names, f.name)])))
    } else {
        Ok(fns.push(f))
    }
}

/// Adds `f` as it is unless its name is taken.
pub fn insert_copy(fns: &mut Vec<Fun>, f: Fun, new_origin: &str) -> (r: Result<(), ScanningError>)
    ensures
        r is Ok ==> copy_result(fun_views(old(fns)@), f@, new_origin@) == Ok::<Seq<FunV>, ErrV>(fun_views(final(fns)@)),
        r matches Err(e) ==> copy_result(fun_views(old(fns)@), f@, new_origin@) == Err::<Seq<FunV>, ErrV>(err_view(e)),
        r is Err ==> final(fns)@ == old(fns)@,
{
    match find_fun(fns, f.name.as_str()) {
        Some(k) => {
            let earlier = origin(&fns[k]);
            let info = cat(&cat(new_origin, " conflicts with "), earlier.as_str());
            assert(info@ =~= duplicate_info(new_origin@, fns@[k as int]@));
            Err(ScanningError::DuplicateFunctionName(f.name, info))
        },
        None => {
            let ghost fv = f@;
            fns.push(f);
            assert(fun_views(fns@) =~= fun_views(old(fns)@).push(fv));
            Ok(())
        },
    }
}

/// Adding a copy keeps the names of a table distinct.
pub proof fn lemma_copy_unique()
    ensures
        forall|fns: Seq<FunV>, f: FunV, o: Seq<char>| #[trigger] copy_result(fns, f, o) is Ok && names_unique(fns)
            ==> names_unique(copy_result(fns, f, o)->Ok_0),
{
    assert forall|fns: Seq<FunV>, f: FunV, o: Seq<char>| #[trigger] copy_result(fns, f, o) is Ok && names_unique(fns)
        implies names_unique(copy_result(fns, f, o)->Ok_0) by {
        let r = copy_result(fns, f, o)->Ok_0;
        assert forall|i: int, j: int| 0 <= i < j < r.len() implies (#[trigger] r[i]).name != (#[trigger] r[j]).name by {
            if j == fns.len() {
                assert(fun_names(fns)[i] == fns[i].name);
                if fns[i].name == f.name {
                    assert(fun_names(fns).contains(f.name));
                }
            } else {
                assert(r[i] == fns[i] && r[j] == fns[j]);
            }
        }
    }
}

/// A name already in the table makes insertion fail with a duplicate-name
/// error naming it.
pub proof fn lemma_taken_name_fails(fns: Seq<FunV>, f: FunV, o: Seq<char>)
    requires
        fun_names(fns).contains(f.name),
    ensures
        insert_result(fns, f, o) matches Err(ErrV::DuplicateFunctionName(n, _)) && n == f.name,
        copy_result(fns, f, o) matches Err(ErrV::DuplicateFunctionName(n, _)) && n == f.name,
{
}

} // verus!
