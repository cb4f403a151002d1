//! Behaviour flags of a function, their capability table, and an ordered,
//! duplicate-free flag set.
use vstd::prelude::*;
use crate::text::same_text;

verus! {

/// A behaviour tag of a function.
#[derive(Debug, Clone, Copy, PartialEq, Eq, Structural, Hash)]
pub enum FnFlag {
    /// Selector invokes the function as a line-editor widget.
    WG,
    /// Wrap the target into a widget that runs it in place of the buffer.
    WR,
    /// Wrap the target into a widget that asks for arguments and inserts its output.
    WSUB,
    /// Wrap the target into a widget that runs it and restores the buffer.
    WJR,
    /// Wrap the target into a widget that inserts its output.
    WJSUB,
    /// Copy the functions of the named group into this group.
    PGI,
    /// Reference to another group.
    PG,
    /// Provisioned function.
    PFN,
    /// Run in the background queue.
    PBG,
    /// Provide as environment variable.
    PE,
    /// Run as subshell.
    SS,
    /// Restore the prompt.
    RP,
    /// Do not clean.
    NC,
    /// Do not add to listings.
    NA,
    /// Selector only adds the command to the buffer.
    NR,
    /// Treat the declaration as a literal command.
    CMD,
    /// Alias declaration.
    AL,
    /// No namespace prefix.
    NN,
}

/// The name under which a flag is written.
pub open spec fn flag_name(f: FnFlag) -> Seq<char> {
    match f {
        FnFlag::WG => "WG"@,
        FnFlag::WR => "WR"@,
        FnFlag::WSUB => "WSUB"@,
        FnFlag::WJR => "WJR"@,
        FnFlag::WJSUB => "WJSUB"@,
        FnFlag::PGI => "PGI"@,
        FnFlag::PG => "PG"@,
        FnFlag::PFN => "PFN"@,
        FnFlag::PBG => "PBG"@,
        FnFlag::PE => "PE"@,
        FnFlag::SS => "SS"@,
        FnFlag::RP => "RP"@,
        FnFlag::NC => "NC"@,
        FnFlag::NA => "NA"@,
        FnFlag::NR => "NR"@,
        FnFlag::CMD => "CMD"@,
        FnFlag::AL => "AL"@,
        FnFlag::NN => "NN"@,
    }
}

/// The flag written `u` (already upper-cased), if any.
pub open spec fn flag_named(u: Seq<char>) -> Option<FnFlag> {
    if u == "WG"@ { Some(FnFlag::WG) }
    else if u == "WR"@ { Some(FnFlag::WR) }
    else if u == "WSUB"@ { Some(FnFlag::WSUB) }
    else if u == "WJR"@ { Some(FnFlag::WJR) }
    else if u == "WJSUB"@ { Some(FnFlag::WJSUB) }
    else if u == "PGI"@ { Some(FnFlag::PGI) }
    else if u == "PG"@ { Some(FnFlag::PG) }
    else if u == "PFN"@ { Some(FnFlag::PFN) }
    else if u == "PBG"@ { Some(FnFlag::PBG) }
    else if u == "PE"@ { Some(FnFlag::PE) }
    else if u == "SS"@ { Some(FnFlag::SS) }
    else if u == "RP"@ { Some(FnFlag::RP) }
    else if u == "NC"@ { Some(FnFlag::NC) }
    else if u == "NA"@ { Some(FnFlag::NA) }
    else if u == "NR"@ { Some(FnFlag::NR) }
    else if u == "CMD"@ { Some(FnFlag::CMD) }
    else if u == "AL"@ { Some(FnFlag::AL) }
    else if u == "NN"@ { Some(FnFlag::NN) }
    else { None }
}

/// The upper-case form of `s`, character by character, as Unicode defines it.
pub uninterp spec fn upper_of(s: Seq<char>) -> Seq<char>;

/// Relies on `str::to_uppercase`: the result depends on the characters alone.
#[verifier::external_body]
fn to_upper(s: &str) -> (r: String)
    ensures
        r@ == upper_of(s@),
{
    s.to_uppercase()
}

/// Widget family: the flag makes the function a line-editor widget.
pub open spec fn widget_family(f: FnFlag) -> bool {
    f == FnFlag::WG || f == FnFlag::WR || f == FnFlag::WSUB || f == FnFlag::WJR || f == FnFlag::WJSUB
}

/// Plugin family: flags that need the function to be provided by the group.
pub open spec fn plugin_family(f: FnFlag) -> bool {
    f == FnFlag::PGI || f == FnFlag::PG || f == FnFlag::PFN || f == FnFlag::PBG || f == FnFlag::PE
}

/// Run-mode flags: at most one of them stays on a function.
pub open spec fn run_mode(f: FnFlag) -> bool {
    widget_family(f) || f == FnFlag::PG || f == FnFlag::NR || f == FnFlag::SS
}

/// Flags that cannot decorate a plain command or script.
pub open spec fn not_on_script(f: FnFlag) -> bool {
    f != FnFlag::WG && (widget_family(f) || plugin_family(f))
}

/// Flags that make the function a shell function rather than a command.
pub open spec fn shell_function_flag(f: FnFlag) -> bool {
    widget_family(f) || f == FnFlag::PG || f == FnFlag::PBG
}

/// Flags whose function is invoked through the group's provided name.
pub open spec fn provision_flag(f: FnFlag) -> bool {
    (widget_family(f) || plugin_family(f)) && f != FnFlag::PG && f != FnFlag::WG
}

impl FnFlag {
    /// The flag's written name.
    pub fn name(&self) -> (r: String)
        ensures
            r@ == flag_name(*self),
    {
        let s = match self {
            FnFlag::WG => "WG",
            FnFlag::WR => "WR",
            FnFlag::WSUB => "WSUB",
            FnFlag::WJR => "WJR",
            FnFlag::WJSUB => "WJSUB",
            FnFlag::PGI => "PGI",
            FnFlag::PG => "PG",
            FnFlag::PFN => "PFN",
            FnFlag::PBG => "PBG",
            FnFlag::PE => "PE",
            FnFlag::SS => "SS",
            FnFlag::RP => "RP",
            FnFlag::NC => "NC",
            FnFlag::NA => "NA",
            FnFlag::NR => "NR",
            FnFlag::CMD => "CMD",
            FnFlag::AL => "AL",
            FnFlag::NN => "NN",
        };
        String::from_str(s)
    }

    /// The flag whose name is `u`, compared exactly.
    pub fn from_upper(u: &str) -> (r: Option<FnFlag>)
        ensures
            r == flag_named(u@),
    {
        if same_text(u, "WG") { Some(FnFlag::WG) }
        else if same_text(u, "WR") { Some(FnFlag::WR) }
        else if same_text(u, "WSUB") { Some(FnFlag::WSUB) }
        else if same_text(u, "WJR") { Some(FnFlag::WJR) }
        else if same_text(u, "WJSUB") { Some(FnFlag::WJSUB) }
        else if same_text(u, "PGI") { Some(FnFlag::PGI) }
        else if same_text(u, "PG") { Some(FnFlag::PG) }
        else if same_text(u, "PFN") { Some(FnFlag::PFN) }
        else if same_text(u, "PBG") { Some(FnFlag::PBG) }
        else if same_text(u, "PE") { Some(FnFlag::PE) }
        else if same_text(u, "SS") { Some(FnFlag::SS) }
        else if same_text(u, "RP") { Some(FnFlag::RP) }
        else if same_text(u, "NC") { Some(FnFlag::NC) }
        else if same_text(u, "NA") { Some(FnFlag::NA) }
        else if same_text(u, "NR") { Some(FnFlag::NR) }
        else if same_text(u, "CMD") { Some(FnFlag::CMD) }
        else if same_text(u, "AL") { Some(FnFlag::AL) }
        else if same_text(u, "NN") { Some(FnFlag::NN) }
        else { None }
    }

    /// The flag written `s`, in any case.
    pub fn parse(s: &str) -> (r: Option<FnFlag>)
        ensures
            r == flag_named(upper_of(s@)),
    {
        let u = to_upper(s);
        FnFlag::from_upper(u.as_str())
    }

    /// Whether the flag cannot decorate a plain command or script.
    pub fn cannot_on_script(&self) -> (r: bool)
        ensures
            r == not_on_script(*self),
    {
        *self != FnFlag::WG && (self.is_widget() || self.is_plugin())
    }

    /// Whether the flag belongs to the widget family.
    pub fn is_widget(&self) -> (r: bool)
        ensures
            r == widget_family(*self),
    {
        match self {
            FnFlag::WG | FnFlag::WR | FnFlag::WSUB | FnFlag::WJR | FnFlag::WJSUB => true,
            _ => false,
        }
    }

    /// Whether the flag belongs to the plugin family.
    pub fn is_plugin(&self) -> (r: bool)
        ensures
            r == plugin_family(*self),
    {
        match self {
            FnFlag::PGI | FnFlag::PG | FnFlag::PFN | FnFlag::PBG | FnFlag::PE => true,
            _ => false,
        }
    }

    /// Whether the flag is a run-mode selector.
    pub fn is_run_mode(&self) -> (r: bool)
        ensures
            r == run_mode(*self),
    {
        self.is_widget() || *self == FnFlag::PG || *self == FnFlag::NR || *self == FnFlag::SS
    }
}

/// A set of flags that remembers the order in which they were added.
#[derive(Debug)]
pub struct FlagSet {
    items: Vec<FnFlag>,
}

impl View for FlagSet {
    type V = Seq<FnFlag>;

    closed spec fn view(&self) -> Seq<FnFlag> {
        self.items@
    }
}

impl FlagSet {
    #[verifier::type_invariant]
    closed spec fn inv(&self) -> bool {
        self.items@.no_duplicates()
    }

    pub fn new() -> (r: FlagSet)
        ensures
            r@ == Seq::<FnFlag>::empty(),
    {
        FlagSet { items: Vec::new() }
    }

    pub fn len(&self) -> (r: usize)
        ensures
            r == self@.len(),
    {
        self.items.len()
    }

    pub fn get(&self, i: usize) -> (r: FnFlag)
        requires
            i < self@.len(),
        ensures
            r == self@[i as int],
    {
        self.items[i]
    }

    pub fn contains(&self, f: FnFlag) -> (r: bool)
        ensures
            r == self@.contains(f),
    {
        let mut i: usize = 0;
        while i < self.items.len()
            invariant
                i <= self.items@.len(),
                forall|j: int| 0 <= j < i ==> self.items@[j] != f,
            decreases self.items@.len() - i,
        {
            if self.items[i] == f {
                return true;
            }
            i = i + 1;
        }
        false
    }

    /// Adds `f` at the end unless it is already there.
    pub fn insert(&mut self, f: FnFlag)
        ensures
            old(self)@.contains(f) ==> final(self)@ == old(self)@,
            !old(self)@.contains(f) ==> final(self)@ == old(self)@.push(f),
    {
        proof {
            use_type_invariant(&*self);
        }
        if !self.contains(f) {
            let ghost before = self.items@;
            let mut items = copy_flags(&self.items);
            items.push(f);
            assert(items@.no_duplicates()) by {
                assert forall|a: int, b: int| 0 <= a < b < items@.len()
                    implies items@[a] != items@[b] by {
                    if b == before.len() {
                        assert(before.contains(before[a]));
                    }
                }
            }
            *self = FlagSet { items };
        }
    }

    /// Adds every flag of `other` that is not there yet, in `other`'s order.
    pub fn extend(&mut self, other: &FlagSet)
        ensures
            final(self)@ == union_seq(old(self)@, other@),
    {
        let mut i: usize = 0;
        assert(other@.subrange(0, 0) =~= Seq::<FnFlag>::empty());
        while i < other.len()
            invariant
                i <= other@.len(),
                self@ == union_seq(old(self)@, other@.subrange(0, i as int)),
            decreases other@.len() - i,
        {
            assert(other@.subrange(0, i + 1).drop_last() =~= other@.subrange(0, i as int));
            let f = other.get(i);
            self.insert(f);
            i = i + 1;
        }
        assert(other@.subrange(0, other@.len() as int) =~= other@);
    }

    /// The set holding the given flags in order, repeats dropped.
    pub fn from_flags(v: Vec<FnFlag>) -> (r: FlagSet)
        ensures
            r@ == union_seq(Seq::empty(), v@),
    {
        let mut r = FlagSet::new();
        let mut i: usize = 0;
        assert(v@.subrange(0, 0) =~= Seq::<FnFlag>::empty());
        while i < v.len()
            invariant
                i <= v@.len(),
                r@ == union_seq(Seq::empty(), v@.subrange(0, i as int)),
            decreases v@.len() - i,
        {
            assert(v@.subrange(0, i + 1).drop_last() =~= v@.subrange(0, i as int));
            r.insert(v[i]);
            i = i + 1;
        }
        assert(v@.subrange(0, v@.len() as int) =~= v@);
        r
    }
}

fn copy_flags(v: &Vec<FnFlag>) -> (r: Vec<FnFlag>)
    ensures
        r@ == v@,
{
    let mut r: Vec<FnFlag> = Vec::new();
    let mut i: usize = 0;
    while i < v.len()
        invariant
            i <= v@.len(),
            r@ == v@.subrange(0, i as int),
        decreases v@.len() - i,
    {
        r.push(v[i]);
        i = i + 1;
        assert(r@ =~= v@.subrange(0, i as int));
    }
    assert(v@.subrange(0, v@.len() as int) =~= v@);
    r
}

/// `a` followed by the flags of `b` that are not yet there.
pub open spec fn union_seq(a: Seq<FnFlag>, b: Seq<FnFlag>) -> Seq<FnFlag>
    decreases b.len(),
{
    if b.len() == 0 {
        a
    } else {
        let u = union_seq(a, b.drop_last());
        if u.contains(b.last()) {
            u
        } else {
            u.push(b.last())
        }
    }
}

/// The first run-mode flag of `f`, in order.
pub open spec fn first_run_mode(f: Seq<FnFlag>) -> Option<FnFlag>
    decreases f.len(),
{
    if f.len() == 0 {
        None
    } else {
        let p = first_run_mode(f.drop_last());
        if p is Some {
            p
        } else if run_mode(f.last()) {
            Some(f.last())
        } else {
            None
        }
    }
}

/// `f` without the run-mode flags that follow its first one.
pub open spec fn single_run_mode(f: Seq<FnFlag>) -> Seq<FnFlag>
    decreases f.len(),
{
    if f.len() == 0 {
        f
    } else {
        let init = single_run_mode(f.drop_last());
        if run_mode(f.last()) && first_run_mode(f.drop_last()) is Some {
            init
        } else {
            init.push(f.last())
        }
    }
}

/// The run-mode flags of `f`, in order.
pub open spec fn run_modes(f: Seq<FnFlag>) -> Seq<FnFlag>
    decreases f.len(),
{
    if f.len() == 0 {
        f
    } else if run_mode(f.last()) {
        run_modes(f.drop_last()).push(f.last())
    } else {
        run_modes(f.drop_last())
    }
}

/// The flags of `f` that are not run-mode flags, in order.
pub open spec fn other_flags(f: Seq<FnFlag>) -> Seq<FnFlag>
    decreases f.len(),
{
    if f.len() == 0 {
        f
    } else if !run_mode(f.last()) {
        other_flags(f.drop_last()).push(f.last())
    } else {
        other_flags(f.drop_last())
    }
}

/// The flags a function ends up with after validation: later run-mode flags
/// are dropped, and a function with key bindings but no run-mode flag becomes
/// a widget.
pub open spec fn checked_flags(f: Seq<FnFlag>, has_binds: bool) -> Seq<FnFlag> {
    if first_run_mode(f) is None && has_binds {
        single_run_mode(f).push(FnFlag::WG)
    } else {
        single_run_mode(f)
    }
}

proof fn lemma_single_sub(f: Seq<FnFlag>)
    ensures
        forall|x: FnFlag| #[trigger] single_run_mode(f).contains(x) ==> f.contains(x),
        f.no_duplicates() ==> single_run_mode(f).no_duplicates(),
        first_run_mode(f) is None ==> single_run_mode(f) == f,
        first_run_mode(f) is None ==> !f.contains(FnFlag::WG),
        first_run_mode(f) is None ==> run_modes(f) == Seq::<FnFlag>::empty(),
        run_modes(single_run_mode(f)) == (match first_run_mode(f) {
            Some(x) => seq![x],
            None => Seq::<FnFlag>::empty(),
        }),
        other_flags(single_run_mode(f)) == other_flags(f),
    decreases f.len(),
{
    if f.len() > 0 {
        let init = f.drop_last();
        lemma_single_sub(init);
        assert forall|x: FnFlag| single_run_mode(f).contains(x) implies f.contains(x) by {
            let sf = single_run_mode(f);
            let si = single_run_mode(init);
            let j = choose|j: int| 0 <= j < sf.len() && sf[j] == x;
            if j < si.len() {
                assert(si[j] == x);
                assert(si.contains(x));
                let i = choose|i: int| 0 <= i < init.len() && init[i] == x;
                assert(f[i] == x);
            } else {
                assert(f[f.len() - 1] == x);
            }
        }
        if f.no_duplicates() {
            assert(init.no_duplicates()) by {
                assert forall|a: int, b: int| 0 <= a < b < init.len() implies init[a] != init[b] by {
                    assert(f[a] == init[a] && f[b] == init[b]);
                }
            }
            if !(run_mode(f.last()) && first_run_mode(init) is Some) {
                assert(!init.contains(f.last())) by {
                    if init.contains(f.last()) {
                        let i = choose|i: int| 0 <= i < init.len() && init[i] == f.last();
                        assert(f[i] == f[f.len() - 1]);
                    }
                }
                let si = single_run_mode(init);
                assert(single_run_mode(f).no_duplicates()) by {
                    assert forall|a: int, b: int| 0 <= a < b < si.len() + 1
                        implies single_run_mode(f)[a] != single_run_mode(f)[b] by {
                        if b == si.len() {
                            assert(si.contains(si[a]));
                        }
                    }
                }
            }
        }
        let si = single_run_mode(init);
        assert(si.push(f.last()).drop_last() =~= si);
        if first_run_mode(init) is None && run_mode(f.last()) {
            assert(Seq::<FnFlag>::empty().push(f.last()) =~= seq![f.last()]);
        }
        if first_run_mode(f) is None {
            assert(init.push(f.last()) =~= f);
            assert(!f.contains(FnFlag::WG)) by {
                if f.contains(FnFlag::WG) {
                    let i = choose|i: int| 0 <= i < f.len() && f[i] == FnFlag::WG;
                    if i < init.len() {
                        assert(init[i] == FnFlag::WG);
                        assert(init.contains(FnFlag::WG));
                    }
                }
            }
        }
    }
}

impl FlagSet {
    /// The set with every run-mode flag after the first one removed, and that
    /// first run-mode flag.
    pub fn keep_first_run_mode(&self) -> (r: (FlagSet, Option<FnFlag>))
        ensures
            r.0@ == single_run_mode(self@),
            r.1 == first_run_mode(self@),
    {
        proof {
            use_type_invariant(self);
        }
        let mut out: Vec<FnFlag> = Vec::new();
        let mut found: Option<FnFlag> = None;
        let mut i: usize = 0;
        assert(self.items@.subrange(0, 0) =~= Seq::<FnFlag>::empty());
        while i < self.items.len()
            invariant
                i <= self.items@.len(),
                out@ == single_run_mode(self.items@.subrange(0, i as int)),
                found == first_run_mode(self.items@.subrange(0, i as int)),
            decreases self.items@.len() - i,
        {
            assert(self.items@.subrange(0, i + 1).drop_last() =~= self.items@.subrange(0, i as int));
            let f = self.items[i];
            if f.is_run_mode() {
                if found.is_none() {
                    found = Some(f);
                    out.push(f);
                }
            } else {
                out.push(f);
            }
            i = i + 1;
        }
        assert(self.items@.subrange(0, self.items@.len() as int) =~= self.items@);
        proof {
            lemma_single_sub(self.items@);
        }
        (FlagSet { items: out }, found)
    }
}

/// Validation of a flag set: the flags it ends up with, and its first run-mode flag.
pub fn check_flags(flags: &FlagSet, has_binds: bool) -> (r: (FlagSet, Option<FnFlag>))
    ensures
        r.0@ == checked_flags(flags@, has_binds),
        r.1 == first_run_mode(flags@),
{
    let (mut kept, first) = flags.keep_first_run_mode();
    if first.is_none() && has_binds {
        proof {
            lemma_single_sub(flags@);
        }
        kept.insert(FnFlag::WG);
    }
    (kept, first)
}

/// A function with key bindings and no run-mode flag ends up with exactly one
/// run-mode flag after validation: the widget flag.
pub proof fn lemma_binds_make_widget(f: Seq<FnFlag>)
    requires
        first_run_mode(f) is None,
    ensures
        run_modes(checked_flags(f, true)) == seq![FnFlag::WG],
        other_flags(checked_flags(f, true)) == other_flags(f),
{
    lemma_single_sub(f);
    let c = checked_flags(f, true);
    assert(c.drop_last() =~= f);
}

/// Of several run-mode flags, validation keeps exactly the first one in the
/// set's order and drops the others; every other flag stays.
pub proof fn lemma_first_run_mode_kept(f: Seq<FnFlag>, has_binds: bool)
    requires
        first_run_mode(f) is Some,
    ensures
        run_modes(checked_flags(f, has_binds)) == seq![first_run_mode(f)->0],
        other_flags(checked_flags(f, has_binds)) == other_flags(f),
{
    lemma_single_sub(f);
}

/// `f` without the flags that cannot decorate a plain command or script.
pub open spec fn script_flags(f: Seq<FnFlag>) -> Seq<FnFlag>
    decreases f.len(),
{
    if f.len() == 0 {
        f
    } else if not_on_script(f.last()) {
        script_flags(f.drop_last())
    } else {
        script_flags(f.drop_last()).push(f.last())
    }
}

proof fn lemma_script_sub(f: Seq<FnFlag>)
    ensures
        forall|x: FnFlag| #[trigger] script_flags(f).contains(x) ==> f.contains(x),
        f.no_duplicates() ==> script_flags(f).no_duplicates(),
    decreases f.len(),
{
    if f.len() > 0 {
        let init = f.drop_last();
        lemma_script_sub(init);
        let si = script_flags(init);
        assert forall|x: FnFlag| script_flags(f).contains(x) implies f.contains(x) by {
            let sf = script_flags(f);
            let j = choose|j: int| 0 <= j < sf.len() && sf[j] == x;
            if j < si.len() {
                assert(si[j] == x);
                assert(si.contains(x));
                let i = choose|i: int| 0 <= i < init.len() && init[i] == x;
                assert(f[i] == x);
            } else {
                assert(f[f.len() - 1] == x);
            }
        }
        if f.no_duplicates() {
            assert(init.no_duplicates()) by {
                assert forall|a: int, b: int| 0 <= a < b < init.len() implies init[a] != init[b] by {
                    assert(f[a] == init[a] && f[b] == init[b]);
                }
            }
            if !not_on_script(f.last()) {
                assert(!init.contains(f.last())) by {
                    if init.contains(f.last()) {
                        let i = choose|i: int| 0 <= i < init.len() && init[i] == f.last();
                        assert(f[i] == f[f.len() - 1]);
                    }
                }
                assert(script_flags(f).no_duplicates()) by {
                    assert forall|a: int, b: int| 0 <= a < b < si.len() + 1
                        implies script_flags(f)[a] != script_flags(f)[b] by {
                        if b == si.len() {
                            assert(si.contains(si[a]));
                        }
                    }
                }
            }
        }
    }
}

impl FlagSet {
    /// The flags that may decorate a plain command or script, in order.
    pub fn without_script_incompatible(&self) -> (r: FlagSet)
        ensures
            r@ == script_flags(self@),
    {
        proof {
            use_type_invariant(self);
        }
        let mut out: Vec<FnFlag> = Vec::new();
        let mut i: usize = 0;
        assert(self.items@.subrange(0, 0) =~= Seq::<FnFlag>::empty());
        while i < self.items.len()
            invariant
                i <= self.items@.len(),
                out@ == script_flags(self.items@.subrange(0, i as int)),
            decreases self.items@.len() - i,
        {
            assert(self.items@.subrange(0, i + 1).drop_last() =~= self.items@.subrange(0, i as int));
            let f = self.items[i];
            if !f.cannot_on_script() {
                out.push(f);
            }
            i = i + 1;
        }
        assert(self.items@.subrange(0, self.items@.len() as int) =~= self.items@);
        proof {
            lemma_script_sub(self.items@);
        }
        FlagSet { items: out }
    }

    /// A copy of the set.
    pub fn duplicate(&self) -> (r: FlagSet)
        ensures
            r@ == self@,
    {
        proof {
            use_type_invariant(self);
        }
        FlagSet { items: copy_flags(&self.items) }
    }
}

/// Without a run-mode flag there is no widget flag.
pub proof fn lemma_no_run_mode_no_widget(f: Seq<FnFlag>)
    requires
        first_run_mode(f) is None,
    ensures
        !f.contains(FnFlag::WG),
{
    lemma_single_sub(f);
}

} // verus!
