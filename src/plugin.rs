use vstd::prelude::*;

use crate::client::Client;
use crate::message::{command_of, message_command, message_trailing, opt_text, trailing_of};
use crate::text::text_eq;

verus! {

/// What the scripting host is asked to do, on its own control channel.
pub enum ExecutorCommand {
    /// Drop every registered handler and start from a fresh state.
    ResetGlobals,
    /// Load and run the script at this path.
    ExecuteFile(String),
    /// Dispatch one inbound protocol line received by this client.
    HandleEvent(Client, String),
}

/// When a registered handler runs.
#[derive(Debug, Clone)]
pub enum Trigger {
    /// When the first word of the message body is one of these.
    Commands(Vec<String>),
    /// When this pattern matches the message body.
    Pattern(String),
    /// When the message's command word is this one.
    EventKind(String),
    /// On every message.
    Always,
}

/// One handler registered by a script: its name, when it runs, and the key of its
/// callback in the scripting host.
#[derive(Debug, Clone)]
pub struct Handler {
    pub name: String,
    pub trigger: Trigger,
    pub callback: u64,
}

/// Whether no two handlers of `hs` share a name.
pub open spec fn names_unique(hs: Seq<Handler>) -> bool {
    forall|i: int, j: int|
        0 <= i < hs.len() && 0 <= j < hs.len() && i != j ==> (#[trigger] hs[i]).name@ != (
        #[trigger] hs[j]).name@
}

/// Whether a handler of `hs` is named `name`.
pub open spec fn has_name(hs: Seq<Handler>, name: Seq<char>) -> bool {
    exists|k: int| 0 <= k < hs.len() && (#[trigger] hs[k]).name@ == name
}

/// `hs` after registering `h`: a handler of the same name is replaced where it
/// stands, keeping its turn; a new name goes last.
pub open spec fn upsert(hs: Seq<Handler>, h: Handler) -> Seq<Handler> {
    if has_name(hs, h.name@) {
        hs.update(choose|k: int| 0 <= k < hs.len() && (#[trigger] hs[k]).name@ == h.name@, h)
    } else {
        hs.push(h)
    }
}

/// How the handlers of one kind are picked for a message.
#[derive(Debug, Clone)]
pub enum Selector {
    /// Every handler.
    All,
    /// Handlers with a command trigger equal to this word, if there is one.
    Word(Option<String>),
    /// The handlers whose verdict here is `true`, by position.
    Verdicts(Vec<bool>),
    /// Handlers for this command word, if there is one.
    Kind(Option<String>),
}

/// Whether the `i`-th handler `h` of its kind is picked by `sel`.
pub open spec fn picks(sel: Selector, h: Handler, i: int) -> bool {
    match sel {
        Selector::All => true,
        Selector::Word(w) => match (w, h.trigger) {
            (Some(w), Trigger::Commands(ts)) => exists|k: int| 0 <= k < ts@.len() && (#[trigger] ts@[k])@ == w@,
            _ => false,
        },
        Selector::Verdicts(v) => 0 <= i < v@.len() && v@[i],
        Selector::Kind(k) => match (k, h.trigger) {
            (Some(k), Trigger::EventKind(e)) => e@ == k@,
            _ => false,
        },
    }
}

/// The callbacks of the first `n` handlers of `hs` that `sel` picks, in order.
pub open spec fn hits(hs: Seq<Handler>, n: int, sel: Selector) -> Seq<u64>
    decreases n,
{
    if n <= 0 {
        Seq::empty()
    } else if picks(sel, hs[n - 1], n - 1) {
        hits(hs, n - 1, sel).push(hs[n - 1].callback)
    } else {
        hits(hs, n - 1, sel)
    }
}

/// The first word of a text: its characters up to the first space.
pub open spec fn first_word(s: Seq<char>) -> Seq<char>
    decreases s.len(),
{
    if s.len() == 0 || s[0] == ' ' {
        Seq::empty()
    } else {
        seq![s[0]] + first_word(s.drop_first())
    }
}

/// Whether `pattern` matches somewhere in `text`, as the regular expression engine
/// decides; `None` where the pattern does not compile.
pub uninterp spec fn regex_match(pattern: Seq<char>, text: Seq<char>) -> Option<bool>;

/// Relies on `regex::Regex::new` and `regex::Regex::is_match`: compiles the pattern
/// (an error for an invalid one) and tells whether it matches anywhere in the text.
#[verifier::external_body]
fn pattern_matches(pattern: &str, text: &str) -> (r: Option<bool>)
    ensures
        r == regex_match(pattern@, text@),
{
    match regex::Regex::new(pattern) {
        Ok(re) => Some(re.is_match(text)),
        Err(_) => None,
    }
}

/// The verdict on each regex handler of `hs` for a message body: it fires where its
/// pattern compiles and matches the body; nothing fires without a body.
pub open spec fn verdicts(hs: Seq<Handler>, body: Option<Seq<char>>) -> Seq<bool> {
    Seq::new(
        hs.len(),
        |i: int|
            match (body, hs[i].trigger) {
                (Some(b), Trigger::Pattern(p)) => regex_match(p@, b) == Some(true),
                _ => false,
            },
    )
}

/// The handlers registered by scripts, one list per kind.
#[derive(Debug, Clone)]
pub struct PluginRegistry {
    pub commands: Vec<Handler>,
    pub regexes: Vec<Handler>,
    pub events: Vec<Handler>,
    pub filters: Vec<Handler>,
}

/// The callbacks to run for a message, in the order they run: every filter, then
/// the command handlers for its first word, then the regex handlers whose verdict
/// is `true`, then the handlers for its command word; each group in registration order.
pub open spec fn dispatch_order(
    reg: PluginRegistry,
    word: Option<String>,
    regex_verdicts: Vec<bool>,
    kind: Option<String>,
) -> Seq<u64> {
    hits(reg.filters@, reg.filters@.len() as int, Selector::All)
        + hits(reg.commands@, reg.commands@.len() as int, Selector::Word(word))
        + hits(reg.regexes@, reg.regexes@.len() as int, Selector::Verdicts(regex_verdicts))
        + hits(reg.events@, reg.events@.len() as int, Selector::Kind(kind))
}

/// Adds `h` to `hs` by `upsert`.
fn register(hs: &mut Vec<Handler>, h: Handler)
    requires
        names_unique(old(hs)@),
    ensures
        final(hs)@ == upsert(old(hs)@, h),
        names_unique(final(hs)@),
{
    let mut i: usize = 0;
    while i < hs.len()
        invariant
            i <= hs@.len(),
            hs@ == old(hs)@,
            names_unique(hs@),
            forall|k: int| 0 <= k < i ==> (#[trigger] hs@[k]).name@ != h.name@,
        decreases hs@.len() - i,
    {
        if hs[i].name == h.name {
            proof {
                let c = choose|k: int| 0 <= k < hs@.len() && (#[trigger] hs@[k]).name@ == h.name@;
                assert(c == i as int) by {
                    if c != i as int {
                        assert(hs@[c].name@ != hs@[i as int].name@);
                    }
                }
            }
            hs.set(i, h);
            proof {
                assert forall|a: int, b: int|
                    0 <= a < hs@.len() && 0 <= b < hs@.len() && a != b implies (#[trigger] hs@[a]).name@
                        != (#[trigger] hs@[b]).name@ by {
                    assert(old(hs)@[a].name@ == hs@[a].name@);
                    assert(old(hs)@[b].name@ == hs@[b].name@);
                }
            }
            return;
        }
        i = i + 1;
    }
    hs.push(h);
    proof {
        assert forall|a: int, b: int|
            0 <= a < hs@.len() && 0 <= b < hs@.len() && a != b implies (#[trigger] hs@[a]).name@
                != (#[trigger] hs@[b]).name@ by {
            if a < old(hs)@.len() && b < old(hs)@.len() {
                assert(old(hs)@[a] == hs@[a] && old(hs)@[b] == hs@[b]);
            }
        }
    }
}

/// Appends to `out` the callbacks of `hs` that `sel` picks, in order.
fn collect(hs: &Vec<Handler>, sel: &Selector, out: &mut Vec<u64>)
    ensures
        final(out)@ == old(out)@ + hits(hs@, hs@.len() as int, *sel),
{
    let mut i: usize = 0;
    while i < hs.len()
        invariant
            i <= hs@.len(),
            out@ == old(out)@ + hits(hs@, i as int, *sel),
        decreases hs@.len() - i,
    {
        let h = &hs[i];
        let pick = match sel {
            Selector::All => true,
            Selector::Word(w) => match (w, &h.trigger) {
                (Some(w), Trigger::Commands(ts)) => contains_text(ts, w),
                _ => false,
            },
            Selector::Verdicts(v) => i < v.len() && v[i],
            Selector::Kind(k) => match (k, &h.trigger) {
                (Some(k), Trigger::EventKind(e)) => *e == *k,
                _ => false,
            },
        };
        if pick {
            out.push(h.callback);
        }
        proof {
            assert(out@ =~= old(out)@ + hits(hs@, i + 1, *sel));
        }
        i = i + 1;
    }
}

/// Whether `word` is one of `ts`.
fn contains_text(ts: &Vec<String>, word: &String) -> (r: bool)
    ensures
        r == exists|k: int| 0 <= k < ts@.len() && (#[trigger] ts@[k])@ == word@,
{
    let mut i: usize = 0;
    while i < ts.len()
        invariant
            i <= ts@.len(),
            forall|k: int| 0 <= k < i ==> (#[trigger] ts@[k])@ != word@,
        decreases ts@.len() - i,
    {
        if ts[i] == *word {
            return true;
        }
        i = i + 1;
    }
    false
}

proof fn lemma_first_word(s: Seq<char>, i: int)
    requires
        0 <= i <= s.len(),
        forall|k: int| 0 <= k < i ==> s[k] != ' ',
        i == s.len() || s[i] == ' ',
    ensures
        first_word(s) == s.take(i),
    decreases i,
{
    if i > 0 {
        lemma_first_word(s.drop_first(), i - 1);
        assert(s.take(i) =~= seq![s[0]] + s.drop_first().take(i - 1));
    } else {
        assert(s.take(i) =~= Seq::<char>::empty());
    }
}

/// The first word of `s`: its characters up to the first space.
pub fn leading_word(s: &str) -> (r: String)
    ensures
        r@ == first_word(s@),
{
    let n = s.unicode_len();
    let mut i: usize = 0;
    while i < n && s.get_char(i) != ' '
        invariant
            n == s@.len(),
            i <= n,
            forall|k: int| 0 <= k < i ==> s@[k] != ' ',
        decreases n - i,
    {
        i = i + 1;
    }
    proof {
        lemma_first_word(s@, i as int);
    }
    String::from_str(s.substring_char(0, i))
}

proof fn lemma_hits_same_prefix(a: Seq<Handler>, b: Seq<Handler>, n: int, sel: Selector)
    requires
        0 <= n <= a.len(),
        n <= b.len(),
        forall|k: int| 0 <= k < n ==> a[k] == b[k],
    ensures
        hits(a, n, sel) == hits(b, n, sel),
    decreases n,
{
    if n > 0 {
        lemma_hits_same_prefix(a, b, n - 1, sel);
    }
}

proof fn lemma_hits_all_len(hs: Seq<Handler>, n: int)
    requires
        0 <= n <= hs.len(),
    ensures
        hits(hs, n, Selector::All).len() == n,
    decreases n,
{
    if n > 0 {
        lemma_hits_all_len(hs, n - 1);
    }
}

proof fn lemma_hits_all(hs: Seq<Handler>, n: int)
    requires
        0 <= n <= hs.len(),
    ensures
        hits(hs, n, Selector::All) == hs.take(n).map_values(|h: Handler| h.callback),
    decreases n,
{
    if n > 0 {
        lemma_hits_all(hs, n - 1);
        assert(hs.take(n).map_values(|h: Handler| h.callback) =~= hs.take(n - 1).map_values(
            |h: Handler| h.callback,
        ).push(hs[n - 1].callback));
    } else {
        assert(hs.take(n).map_values(|h: Handler| h.callback) =~= Seq::<u64>::empty());
    }
}

/// Every registered filter runs on every message, once each, before any other
/// handler and in the order of the filter list, whatever the message holds and
/// whatever else matches it.
pub proof fn lemma_every_filter_runs(
    reg: PluginRegistry,
    word: Option<String>,
    regex_verdicts: Vec<bool>,
    kind: Option<String>,
)
    ensures
        dispatch_order(reg, word, regex_verdicts, kind).take(reg.filters@.len() as int)
            == reg.filters@.map_values(|h: Handler| h.callback),
{
    let n = reg.filters@.len() as int;
    lemma_hits_all(reg.filters@, n);
    assert(reg.filters@.take(n) =~= reg.filters@);
    let d = dispatch_order(reg, word, regex_verdicts, kind);
    assert(d.take(n) =~= hits(reg.filters@, n, Selector::All));
}

/// After a reset, no message runs any handler, whatever it holds.
pub proof fn lemma_reset_runs_nothing(
    reg: PluginRegistry,
    word: Option<String>,
    regex_verdicts: Vec<bool>,
    kind: Option<String>,
)
    requires
        reg.is_fresh(),
    ensures
        dispatch_order(reg, word, regex_verdicts, kind).len() == 0,
{
}

/// Two filters registered one after the other under new names both run on every
/// message, in the order they were registered, right after the filters that were
/// there before them.
pub proof fn lemma_filters_run_in_order(
    before: PluginRegistry,
    middle: PluginRegistry,
    after: PluginRegistry,
    first: Handler,
    second: Handler,
    word: Option<String>,
    regex_verdicts: Vec<bool>,
    kind: Option<String>,
)
    requires
        before.wf(),
        first.trigger is Always,
        second.trigger is Always,
        !has_name(before.filters@, first.name@),
        !has_name(before.filters@, second.name@),
        first.name@ != second.name@,
        middle.filters@ == upsert(before.filters@, first),
        after.filters@ == upsert(middle.filters@, second),
    ensures
        dispatch_order(after, word, regex_verdicts, kind).take(before.filters@.len() as int) == hits(
            before.filters@,
            before.filters@.len() as int,
            Selector::All,
        ),
        dispatch_order(after, word, regex_verdicts, kind)[before.filters@.len() as int] == first.callback,
        dispatch_order(after, word, regex_verdicts, kind)[before.filters@.len() + 1int] == second.callback,
{
    let b = before.filters@;
    let n = b.len() as int;
    assert(middle.filters@ == b.push(first));
    assert(!has_name(middle.filters@, second.name@)) by {
        if has_name(middle.filters@, second.name@) {
            let k = choose|k: int| 0 <= k < middle.filters@.len() && (#[trigger] middle.filters@[k]).name@ == second.name@;
            if k < n {
                assert(b[k] == middle.filters@[k]);
            }
        }
    }
    let f = after.filters@;
    assert(f == b.push(first).push(second));
    lemma_hits_same_prefix(b, f, n, Selector::All);
    lemma_hits_all_len(b, n);
    assert(f.len() == n + 2 && f[n] == first && f[n + 1] == second);
    assert(hits(f, n + 1, Selector::All) == hits(f, n, Selector::All).push(first.callback));
    let h = hits(f, n + 2, Selector::All);
    assert(h == hits(b, n, Selector::All).push(first.callback).push(second.callback));
    let d = dispatch_order(after, word, regex_verdicts, kind);
    assert(d.take(n) =~= hits(b, n, Selector::All));
}

impl PluginRegistry {
    /// Names are unique within each kind.
    pub open spec fn wf(&self) -> bool {
        &&& names_unique(self.commands@)
        &&& names_unique(self.regexes@)
        &&& names_unique(self.events@)
        &&& names_unique(self.filters@)
    }

    /// Whether no handler of any kind is registered.
    pub open spec fn is_fresh(&self) -> bool {
        &&& self.commands@.len() == 0
        &&& self.regexes@.len() == 0
        &&& self.events@.len() == 0
        &&& self.filters@.len() == 0
    }

    pub fn new() -> (r: PluginRegistry)
        ensures
            r.wf(),
            r.is_fresh(),
    {
        PluginRegistry {
            commands: Vec::new(),
            regexes: Vec::new(),
            events: Vec::new(),
            filters: Vec::new(),
        }
    }

    /// Registers a handler that runs when a message's first word is one of `triggers`.
    pub fn register_command(&mut self, name: String, triggers: Vec<String>, callback: u64)
        requires
            old(self).wf(),
        ensures
            final(self).wf(),
            final(self).commands@ == upsert(
                old(self).commands@,
                Handler { name, trigger: Trigger::Commands(triggers), callback },
            ),
            final(self).regexes == old(self).regexes,
            final(self).events == old(self).events,
            final(self).filters == old(self).filters,
    {
        register(&mut self.commands, Handler { name, trigger: Trigger::Commands(triggers), callback });
    }

    /// Registers a handler that runs when `pattern` matches a message's body.
    pub fn register_regex(&mut self, name: String, pattern: String, callback: u64)
        requires
            old(self).wf(),
        ensures
            final(self).wf(),
            final(self).regexes@ == upsert(
                old(self).regexes@,
                Handler { name, trigger: Trigger::Pattern(pattern), callback },
            ),
            final(self).commands == old(self).commands,
            final(self).events == old(self).events,
            final(self).filters == old(self).filters,
    {
        register(&mut self.regexes, Handler { name, trigger: Trigger::Pattern(pattern), callback });
    }

    /// Registers a handler that runs for messages whose command word is `event`.
    pub fn register_event(&mut self, name: String, event: String, callback: u64)
        requires
            old(self).wf(),
        ensures
            final(self).wf(),
            final(self).events@ == upsert(
                old(self).events@,
                Handler { name, trigger: Trigger::EventKind(event), callback },
            ),
            final(self).commands == old(self).commands,
            final(self).regexes == old(self).regexes,
            final(self).filters == old(self).filters,
    {
        register(&mut self.events, Handler { name, trigger: Trigger::EventKind(event), callback });
    }

    /// Registers a handler that runs on every message.
    pub fn register_filter(&mut self, name: String, callback: u64)
        requires
            old(self).wf(),
        ensures
            final(self).wf(),
            final(self).filters@ == upsert(
                old(self).filters@,
                Handler { name, trigger: Trigger::Always, callback },
            ),
            final(self).commands == old(self).commands,
            final(self).regexes == old(self).regexes,
            final(self).events == old(self).events,
    {
        register(&mut self.filters, Handler { name, trigger: Trigger::Always, callback });
    }

    /// Replaces the whole registry with a fresh, empty one.
    pub fn reset_globals(&mut self)
        ensures
            final(self).wf(),
            final(self).is_fresh(),
    {
        *self = PluginRegistry::new();
    }

    /// The callbacks to run for a message, given its first word, the verdict on
    /// each regex handler, and its command word.
    pub fn dispatch_plan(
        &self,
        word: Option<String>,
        regex_verdicts: Vec<bool>,
        kind: Option<String>,
    ) -> (r: Vec<u64>)
        ensures
            r@ == dispatch_order(*self, word, regex_verdicts, kind),
    {
        let mut out: Vec<u64> = Vec::new();
        collect(&self.filters, &Selector::All, &mut out);
        collect(&self.commands, &Selector::Word(word), &mut out);
        collect(&self.regexes, &Selector::Verdicts(regex_verdicts), &mut out);
        collect(&self.events, &Selector::Kind(kind), &mut out);
        proof {
            assert(out@ =~= dispatch_order(*self, word, regex_verdicts, kind));
        }
        out
    }

    /// The callbacks to run for one inbound protocol line, in the order they run.
    pub fn dispatch(&self, message: &str) -> (r: Vec<u64>)
        ensures
            exists|word: Option<String>, v: Vec<bool>, kind: Option<String>|
                opt_text(word) == (match trailing_of(message@) {
                    Some(b) => Some(first_word(b)),
                    None => None,
                }) && v@ == verdicts(self.regexes@, trailing_of(message@)) && opt_text(kind)
                    == command_of(message@) && #[trigger] dispatch_order(*self, word, v, kind) == r@,
    {
        let kind = message_command(message);
        let body = message_trailing(message);
        let word = match &body {
            Some(b) => Some(leading_word(b.as_str())),
            None => None,
        };
        let mut v: Vec<bool> = Vec::new();
        let mut i: usize = 0;
        while i < self.regexes.len()
            invariant
                i <= self.regexes@.len(),
                opt_text(body) == trailing_of(message@),
                v@ == verdicts(self.regexes@, trailing_of(message@)).take(i as int),
            decreases self.regexes@.len() - i,
        {
            let fires = match (&body, &self.regexes[i].trigger) {
                (Some(b), Trigger::Pattern(p)) => match pattern_matches(p.as_str(), b.as_str()) {
                    Some(true) => true,
                    _ => false,
                },
                _ => false,
            };
            v.push(fires);
            proof {
                assert(v@ =~= verdicts(self.regexes@, trailing_of(message@)).take(i + 1));
            }
            i = i + 1;
        }
        proof {
            assert(v@ =~= verdicts(self.regexes@, trailing_of(message@)));
        }
        let ghost gv = v;
        let ghost gw = word;
        let ghost gk = kind;
        let r = self.dispatch_plan(word, v, kind);
        proof {
            assert(dispatch_order(*self, gw, gv, gk) == r@);
        }
        r
    }
}

} // verus!
