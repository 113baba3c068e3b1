//! The module loader: resolves a graph of module inclusions, detects cyclic
//! inclusion before it causes unbounded recursion, caches the outcome of
//! every attempted module, and forwards all diagnostics to an owned
//! `ErrorEmitter`.
//!
//! The recursive descent into included modules is driven from outside (it
//! performs file I/O): a driver calls `begin_load` before reading a module's
//! file and descending into its inclusions, and `finish_load` with what the
//! read yielded. `load` is the two in sequence, for a module whose inclusions
//! are not followed.

use vstd::prelude::*;
use crate::diagnostic::Diagnostic;
use crate::diagnostic::DiagnosticResult;
use crate::diagnostic::DiagnosticView;
use crate::diagnostic::ErrorMessage;
use crate::diagnostic::MessageView;
use crate::diagnostic::Severity;
use crate::diagnostic::msgs_view;
use crate::emitter::ErrorEmitter;
use crate::path::ModulePath;
use crate::source::FileContents;
use crate::source::all_valid;
use crate::source::cannot_open_message;
use crate::source::first_invalid;
use crate::source::invalid_line_message;
use crate::source::read_lines;
use crate::table::PathTable;

verus! {

use vstd::string::StringExecFns;

/// One source file's parsed representation: the unit of inclusion and
/// compilation.
#[derive(Debug, Clone, Copy, PartialEq, Eq, Structural)]
pub struct Module {}

/// The diagnostic reported when a module transitively includes itself.
pub open spec fn cyclic_message(path: Seq<Seq<char>>) -> MessageView {
    MessageView {
        text: "cyclic module inclusion detected"@,
        severity: Severity::Error,
        context: DiagnosticView::InFile { path },
    }
}

/// The cached outcome a load attempt leaves for its module path: present on
/// success, absent on failure.
pub open spec fn load_outcome(contents: FileContents) -> Option<Module> {
    match contents {
        FileContents::Unopenable => None,
        FileContents::Lines(ls) => if all_valid(ls@) {
            Some(Module {})
        } else {
            None
        },
    }
}

/// The messages a non-cyclic load attempt emits for its module path.
pub open spec fn load_messages(path: Seq<Seq<char>>, contents: FileContents) -> Seq<MessageView> {
    match contents {
        FileContents::Unopenable => seq![cannot_open_message(path)],
        FileContents::Lines(ls) => if all_valid(ls@) {
            Seq::empty()
        } else {
            seq![invalid_line_message(path, (first_invalid(ls@) + 1) as nat)]
        },
    }
}

/// Loads modules handed over as plain file contents, tracking the current
/// load chain for cycle detection and caching every attempted outcome.
pub struct ModuleLoader {
    /// The modules on the current root-to-leaf load chain. A path is flagged
    /// as cyclic only while it is a genuine ancestor of itself here.
    currently_loading: Vec<ModulePath>,
    /// Every attempted module's outcome; absent means the attempt failed.
    modules: PathTable<Option<Module>>,
    error_emitter: ErrorEmitter,
}

impl ModuleLoader {
    /// The set of module paths on the current load chain.
    pub closed spec fn loading(self) -> Set<Seq<Seq<char>>> {
        self.currently_loading@.map_values(|p: ModulePath| p@).to_set()
    }

    /// The cached outcome per attempted module path.
    pub closed spec fn cache(self) -> Map<Seq<Seq<char>>, Option<Module>> {
        self.modules@
    }

    /// The messages forwarded to the owned emitter so far, in order.
    pub closed spec fn emitted(self) -> Seq<MessageView> {
        self.error_emitter@
    }

    pub closed spec fn wf(self) -> bool {
        &&& forall|i: int, j: int|
            0 <= i < j < self.currently_loading.len() ==> (#[trigger] self.currently_loading[i])@
                != (#[trigger] self.currently_loading[j])@
        &&& self.modules.wf()
    }

    /// A loader that owns the given emitter, with nothing loading and
    /// nothing cached.
    pub fn new(error_emitter: ErrorEmitter) -> (r: Self)
        ensures
            r.wf(),
            r.loading() == Set::<Seq<Seq<char>>>::empty(),
            r.cache() == Map::<Seq<Seq<char>>, Option<Module>>::empty(),
            r.emitted() == error_emitter@,
    {
        let r = Self {
            currently_loading: Vec::new(),
            modules: PathTable::new(),
            error_emitter,
        };
        proof {
            assert(r.loading() =~= Set::<Seq<Seq<char>>>::empty());
        }
        r
    }

    fn position_in(v: &Vec<ModulePath>, path: &ModulePath) -> (r: Option<usize>)
        ensures
            match r {
                Some(i) => i < v.len() && v[i as int]@ == path@,
                None => forall|j: int| 0 <= j < v.len() ==> (#[trigger] v[j])@ != path@,
            },
    {
        let n = v.len();
        for i in 0..n
            invariant
                n == v.len(),
                forall|j: int| 0 <= j < i ==> (#[trigger] v[j])@ != path@,
        {
            if v[i] == *path {
                return Some(i);
            }
        }
        None
    }

    /// Whether `path` is on the current load chain.
    pub fn is_loading(&self, path: &ModulePath) -> (r: bool)
        ensures
            r == self.loading().contains(path@),
    {
        let pos = Self::position_in(&self.currently_loading, path);
        proof {
            let views = self.currently_loading@.map_values(|p: ModulePath| p@);
            assert(forall|j: int|
                0 <= j < views.len() ==> views[j] == (#[trigger] self.currently_loading@[j])@);
            if self.loading().contains(path@) {
                assert(views.contains(path@));
            }
            if pos is Some {
                assert(views[pos.unwrap() as int] == path@);
                assert(views.contains(path@));
            }
        }
        pos.is_some()
    }

    /// Step 1 of a load: flags a cyclic inclusion. If `path` is already on
    /// the load chain, one cyclic-inclusion diagnostic is emitted and the
    /// attempt goes no further (the cache is untouched); otherwise `path`
    /// enters the load chain and loading may proceed.
    pub fn begin_load(&mut self, path: &ModulePath) -> (entered: bool)
        requires
            old(self).wf(),
        ensures
            final(self).wf(),
            entered <==> !old(self).loading().contains(path@),
            final(self).cache() == old(self).cache(),
            entered ==> final(self).loading() == old(self).loading().insert(path@)
                && final(self).emitted() == old(self).emitted(),
            !entered ==> final(self).loading() == old(self).loading() && final(self).emitted()
                == old(self).emitted() + seq![cyclic_message(path@)],
    {
        if self.is_loading(path) {
            let message = ErrorMessage::new(
                String::from_str("cyclic module inclusion detected"),
                Severity::Error,
                Diagnostic::in_file(path.clone()),
            );
            let ghost mv = message@;
            let mut batch: Vec<ErrorMessage> = Vec::new();
            batch.push(message);
            proof {
                assert(msgs_view(batch@) =~= seq![mv]);
            }
            self.error_emitter.process(batch);
            false
        } else {
            let ghost pre = self.currently_loading@;
            self.currently_loading.push(path.clone());
            proof {
                let views = pre.map_values(|p: ModulePath| p@);
                let views2 = self.currently_loading@.map_values(|p: ModulePath| p@);
                assert(views2 =~= views.push(path@));
                assert(forall|j: int| 0 <= j < views.len() ==> views[j] == (#[trigger] pre[j])@);
                assert forall|k: Seq<Seq<char>>| views.contains(k) implies #[trigger] views2.contains(
                    k,
                ) by {
                    let j = choose|j: int| 0 <= j < views.len() && views[j] == k;
                    assert(views2[j] == k);
                }
                assert(views2.contains(path@)) by {
                    assert(views2[views2.len() - 1] == path@);
                }
                assert(forall|k: Seq<Seq<char>>| #[trigger]
                    views2.contains(k) ==> k == path@ || views.contains(k)) by {
                    assert(forall|j: int|
                        0 <= j < views2.len() - 1 ==> #[trigger] views2[j] == views[j]);
                }
                assert(final(self).loading() =~= old(self).loading().insert(path@));
                // The pushed path is new to the chain, so uniqueness holds.
                assert(forall|j: int|
                    0 <= j < pre.len() ==> (#[trigger] pre[j])@ != path@) by {
                    if exists|j: int| 0 <= j < pre.len() && (#[trigger] pre[j])@ == path@ {
                        let j = choose|j: int| 0 <= j < pre.len() && (#[trigger] pre[j])@ == path@;
                        assert(views[j] == path@);
                        assert(views.contains(path@));
                    }
                }
            }
            true
        }
    }

    /// Steps 2 onward of a load: reads the handed-over contents into lines,
    /// constructs the module where the lines were read successfully, drains
    /// every diagnostic into the owned emitter, takes `path` off the load
    /// chain, and caches the outcome, overwriting any prior entry.
    pub fn finish_load(&mut self, path: ModulePath, contents: FileContents)
        requires
            old(self).wf(),
        ensures
            final(self).wf(),
            final(self).loading() == old(self).loading().remove(path@),
            final(self).cache() == old(self).cache().insert(path@, load_outcome(contents)),
            final(self).emitted() == old(self).emitted() + load_messages(path@, contents),
    {
        let ghost gcontents = contents;
        let lines = read_lines(&path, contents);
        let module_result: DiagnosticResult<Module> = match lines {
            DiagnosticResult::Success { value: _, diagnostics } => DiagnosticResult::Success {
                value: Module {},
                diagnostics,
            },
            DiagnosticResult::Fail { diagnostics } => DiagnosticResult::Fail { diagnostics },
        };
        let module = self.error_emitter.consume_diagnostic(module_result);
        let ghost pre = self.currently_loading@;
        match Self::position_in(&self.currently_loading, &path) {
            Some(i) => {
                self.currently_loading.remove(i);
                proof {
                    let views = pre.map_values(|p: ModulePath| p@);
                    let views2 = self.currently_loading@.map_values(|p: ModulePath| p@);
                    assert(forall|j: int| 0 <= j < views.len() ==> views[j] == (#[trigger] pre[j])@);
                    assert(forall|j: int|
                        0 <= j < views2.len() ==> #[trigger] views2[j] == if j < i {
                            views[j]
                        } else {
                            views[j + 1]
                        });
                    // Uniqueness: `i` was the only position holding `path`.
                    assert(forall|j: int|
                        0 <= j < pre.len() && j != i ==> (#[trigger] pre[j])@ != path@);
                    assert forall|k: Seq<Seq<char>>| #[trigger]
                        views2.contains(k) implies views.contains(k) && k != path@ by {
                        let j = choose|j: int| 0 <= j < views2.len() && views2[j] == k;
                        if j < i {
                            assert(views[j] == k);
                        } else {
                            assert(views[j + 1] == k);
                        }
                    }
                    assert forall|k: Seq<Seq<char>>|
                        views.contains(k) && k != path@ implies #[trigger] views2.contains(k) by {
                        let j = choose|j: int| 0 <= j < views.len() && views[j] == k;
                        if j < i {
                            assert(views2[j] == k);
                        } else {
                            assert(j > i);
                            assert(views2[j - 1] == k);
                        }
                    }
                    assert(self.currently_loading@.map_values(|p: ModulePath| p@).to_set()
                        =~= pre.map_values(|p: ModulePath| p@).to_set().remove(path@));
                }
            },
            None => {
                proof {
                    let views = pre.map_values(|p: ModulePath| p@);
                    assert(forall|j: int| 0 <= j < views.len() ==> views[j] == (#[trigger] pre[j])@);
                    assert(!views.contains(path@));
                    assert(views.to_set() =~= views.to_set().remove(path@));
                }
            },
        }
        self.modules.insert(path, module);
    }

    /// Loads one module whose inclusions are not followed: cycle check, read,
    /// drain, cache. Exactly the sequence of `begin_load` and `finish_load`.
    pub fn load(&mut self, path: ModulePath, contents: FileContents)
        requires
            old(self).wf(),
        ensures
            final(self).wf(),
            old(self).loading().contains(path@) ==> final(self).loading() == old(self).loading()
                && final(self).cache() == old(self).cache()
                && final(self).emitted() == old(self).emitted() + seq![cyclic_message(path@)],
            !old(self).loading().contains(path@) ==> final(self).loading() == old(self).loading()
                && final(self).cache() == old(self).cache().insert(path@, load_outcome(contents))
                && final(self).emitted() == old(self).emitted() + load_messages(path@, contents),
    {
        let entered = self.begin_load(&path);
        if entered {
            let ghost mid = self.loading();
            self.finish_load(path, contents);
            proof {
                assert(final(self).loading() =~= old(self).loading());
            }
        }
    }

    /// The cached outcome for `path`: nothing if no load was attempted, or
    /// the attempt's optional module.
    pub fn cached(&self, path: &ModulePath) -> (r: Option<&Option<Module>>)
        requires
            self.wf(),
        ensures
            match r {
                Some(outcome) => self.cache().contains_key(path@)
                    && *outcome == self.cache()[path@],
                None => !self.cache().contains_key(path@),
            },
    {
        self.modules.get(path)
    }

    /// Hands ownership of the accumulated emitter to the caller for final
    /// reporting, leaving the loader with an empty one: a one-shot drain.
    pub fn take_error_emitter(&mut self) -> (r: ErrorEmitter)
        ensures
            r@ == old(self).emitted(),
            final(self).emitted() == Seq::<MessageView>::empty(),
            final(self).loading() == old(self).loading(),
            final(self).cache() == old(self).cache(),
            final(self).wf() == old(self).wf(),
    {
        let mut taken = ErrorEmitter::new();
        core::mem::swap(&mut self.error_emitter, &mut taken);
        taken
    }
}

} // verus!
