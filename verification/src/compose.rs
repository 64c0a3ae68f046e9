use vstd::prelude::*;

verus! {

use vstd::string::StringExecFns;

use crate::error::Error;
use crate::loader::{has_module, module_at, Context, Id, Module, Reference};

/// View of an optional symbol.
pub open spec fn opt_view(o: Option<String>) -> Option<Seq<char>> {
    match o {
        Some(s) => Some(s@),
        None => None,
    }
}

/// The URL a referenced identifier resolves to: present exactly when the
/// identifier is registered and its module's content has been materialized.
pub open spec fn target_url(ms: Seq<Module>, id: Id) -> Option<Seq<char>> {
    if has_module(ms, id) && module_at(ms, id).resolved_url is Some {
        Some(module_at(ms, id).resolved_url.unwrap()@)
    } else {
        None
    }
}

/// The import statement a `Module`-kind reference emits.
pub open spec fn import_line(symbol: Option<Seq<char>>, url: Seq<char>) -> Seq<char> {
    match symbol {
        Some(sym) => "import "@ + sym + " from \""@ + url + "\";\n"@,
        None => "import \""@ + url + "\";\n"@,
    }
}

/// The re-export statement an `Export`-kind reference emits.
pub open spec fn export_line(symbol: Seq<char>, url: Seq<char>) -> Seq<char> {
    "export "@ + symbol + " from \""@ + url + "\";\n"@
}

/// A `Module`-kind reference whose target URL is available emits an import.
pub open spec fn emits_import(ms: Seq<Module>, r: (Reference, Option<String>, Id)) -> bool {
    r.0 is Module && target_url(ms, r.2) is Some
}

/// An `Export`-kind reference whose target URL is available emits a re-export.
pub open spec fn emits_export(ms: Seq<Module>, r: (Reference, Option<String>, Id)) -> bool {
    r.0 is Export && target_url(ms, r.2) is Some
}

/// An `Export`-kind reference whose target URL is unavailable is fatal to the
/// whole composition; any other unavailable target is skipped (best effort).
pub open spec fn fatal_export(ms: Seq<Module>, r: (Reference, Option<String>, Id)) -> bool {
    r.0 is Export && target_url(ms, r.2) is None
}

/// The error a fatal reference raises.
pub open spec fn fatal_error(ms: Seq<Module>, r: (Reference, Option<String>, Id)) -> Error {
    if has_module(ms, r.2) {
        Error::DependencyNotLoaded(r.2)
    } else {
        Error::UnresolvedReference(r.2)
    }
}

/// The import statements the references emit, in declaration order.
pub open spec fn import_lines(
    ms: Seq<Module>,
    refs: Seq<(Reference, Option<String>, Id)>,
) -> Seq<Seq<char>>
    decreases refs.len(),
{
    if refs.len() == 0 {
        Seq::empty()
    } else {
        let init = import_lines(ms, refs.drop_last());
        let r = refs.last();
        if emits_import(ms, r) {
            init.push(import_line(opt_view(r.1), target_url(ms, r.2).unwrap()))
        } else {
            init
        }
    }
}

/// The re-export statements the references emit, in declaration order.
pub open spec fn export_lines(
    ms: Seq<Module>,
    refs: Seq<(Reference, Option<String>, Id)>,
) -> Seq<Seq<char>>
    decreases refs.len(),
{
    if refs.len() == 0 {
        Seq::empty()
    } else {
        let init = export_lines(ms, refs.drop_last());
        let r = refs.last();
        if emits_export(ms, r) {
            init.push(export_line(opt_view(r.1).unwrap(), target_url(ms, r.2).unwrap()))
        } else {
            init
        }
    }
}

/// The error of the first fatal reference, in declaration order, if any.
pub open spec fn first_fatal(
    ms: Seq<Module>,
    refs: Seq<(Reference, Option<String>, Id)>,
) -> Option<Error>
    decreases refs.len(),
{
    if refs.len() == 0 {
        None
    } else if fatal_export(ms, refs.first()) {
        Some(fatal_error(ms, refs.first()))
    } else {
        first_fatal(ms, refs.drop_first())
    }
}

/// The statements joined as lines are joined: a line feed between entries.
pub open spec fn join_nl(lines: Seq<Seq<char>>) -> Seq<char>
    decreases lines.len(),
{
    if lines.len() == 0 {
        Seq::empty()
    } else if lines.len() == 1 {
        lines[0]
    } else {
        join_nl(lines.drop_last()) + "\n"@ + lines.last()
    }
}

/// The composed content of a module: its joined import statements, then its
/// own static content, then its joined re-export statements — unless some
/// `Export` reference is unavailable, which fails the composition with the
/// first such reference's error.
pub open spec fn compose_spec(ms: Seq<Module>, m: Module) -> Result<Seq<char>, Error> {
    match first_fatal(ms, m.references@) {
        Some(e) => Err(e),
        None => Ok(
            join_nl(import_lines(ms, m.references@)) + m.content@ + join_nl(
                export_lines(ms, m.references@),
            ),
        ),
    }
}

proof fn lemma_first_fatal_none(ms: Seq<Module>, refs: Seq<(Reference, Option<String>, Id)>)
    requires
        forall|j: int| 0 <= j < refs.len() ==> !fatal_export(ms, #[trigger] refs[j]),
    ensures
        first_fatal(ms, refs) is None,
    decreases refs.len(),
{
    if refs.len() > 0 {
        assert(refs.first() == refs[0]);
        assert forall|j: int| 0 <= j < refs.drop_first().len() implies !fatal_export(
            ms,
            #[trigger] refs.drop_first()[j],
        ) by {
            assert(refs.drop_first()[j] == refs[j + 1]);
        }
        lemma_first_fatal_none(ms, refs.drop_first());
    }
}

proof fn lemma_first_fatal_at(
    ms: Seq<Module>,
    refs: Seq<(Reference, Option<String>, Id)>,
    i: int,
)
    requires
        0 <= i < refs.len(),
        forall|j: int| 0 <= j < i ==> !fatal_export(ms, #[trigger] refs[j]),
        fatal_export(ms, refs[i]),
    ensures
        first_fatal(ms, refs) == Some(fatal_error(ms, refs[i])),
    decreases i,
{
    assert(refs.first() == refs[0]);
    if i == 0 {
    } else {
        assert forall|j: int| 0 <= j < i - 1 implies !fatal_export(
            ms,
            #[trigger] refs.drop_first()[j],
        ) by {
            assert(refs.drop_first()[j] == refs[j + 1]);
        }
        assert(refs.drop_first()[i - 1] == refs[i]);
        lemma_first_fatal_at(ms, refs.drop_first(), i - 1);
    }
}

fn make_import_line(symbol: &Option<String>, url: &String) -> (r: String)
    ensures
        r@ == import_line(opt_view(*symbol), url@),
{
    let mut s = String::new();
    match symbol {
        Some(detail) => {
            s.append("import ");
            s.append(detail.as_str());
            s.append(" from \"");
            s.append(url.as_str());
            s.append("\";\n");
        },
        None => {
            s.append("import \"");
            s.append(url.as_str());
            s.append("\";\n");
        },
    }
    proof {
        assert(s@ =~= import_line(opt_view(*symbol), url@));
    }
    s
}

fn make_export_line(symbol: &String, url: &String) -> (r: String)
    ensures
        r@ == export_line(symbol@, url@),
{
    let mut s = String::new();
    s.append("export ");
    s.append(symbol.as_str());
    s.append(" from \"");
    s.append(url.as_str());
    s.append("\";\n");
    proof {
        assert(s@ =~= export_line(symbol@, url@));
    }
    s
}

/// Join already-emitted statements with a line feed between entries.
fn join_lines(lines: &Vec<String>) -> (r: String)
    ensures
        r@ == join_nl(lines@.map_values(|s: String| s@)),
{
    let ghost views = lines@.map_values(|s: String| s@);
    let mut s = String::new();
    let mut i: usize = 0;
    while i < lines.len()
        invariant
            views == lines@.map_values(|s: String| s@),
            i <= lines@.len(),
            s@ == join_nl(views.take(i as int)),
        decreases lines@.len() - i,
    {
        if i > 0 {
            s.append("\n");
        }
        s.append(lines[i].as_str());
        proof {
            assert(views.take(i + 1).drop_last() =~= views.take(i as int));
            assert(views.take(i + 1).last() == views[i as int]);
            if i == 0 {
                assert(s@ =~= join_nl(views.take(i + 1)));
            }
        }
        i += 1;
    }
    proof {
        assert(views.take(lines@.len() as int) =~= views);
    }
    s
}

impl Module {
    /// Compose this module's final content against the registry: one import
    /// statement per `Module`-kind reference and one re-export statement per
    /// `Export`-kind reference, in declaration order, around the module's own
    /// static content.  References whose target is unregistered or not yet
    /// materialized are skipped, except `Export` references, whose miss is
    /// fatal and yields the first such reference's error.
    pub fn content(&self, ctx: &Context) -> (r: Result<String, Error>)
        requires
            crate::loader::unique_ids(ctx.modules@),
            crate::loader::export_refs_named(self.references@),
        ensures
            match r {
                Ok(s) => compose_spec(ctx.modules@, *self) == Ok::<Seq<char>, Error>(s@),
                Err(e) => compose_spec(ctx.modules@, *self) == Err::<Seq<char>, Error>(e),
            },
    {
        let ghost ms = ctx.modules@;
        let ghost refs = self.references@;
        let mut imports: Vec<String> = Vec::new();
        let mut exports: Vec<String> = Vec::new();
        let mut i: usize = 0;
        while i < self.references.len()
            invariant
                ms == ctx.modules@,
                refs == self.references@,
                crate::loader::unique_ids(ms),
                crate::loader::export_refs_named(refs),
                i <= refs.len(),
                forall|j: int| 0 <= j < i ==> !fatal_export(ms, #[trigger] refs[j]),
                imports@.map_values(|s: String| s@) == import_lines(ms, refs.take(i as int)),
                exports@.map_values(|s: String| s@) == export_lines(ms, refs.take(i as int)),
            decreases refs.len() - i,
        {
            let r = &self.references[i];
            match ctx.get(r.2) {
                Some(target) => {
                    match &target.resolved_url {
                        Some(url) => {
                            match r.0 {
                                Reference::Module => {
                                    let line = make_import_line(&r.1, url);
                                    imports.push(line);
                                },
                                Reference::Export => {
                                    match &r.1 {
                                        Some(symbol) => {
                                            let line = make_export_line(symbol, url);
                                            exports.push(line);
                                        },
                                        None => {
                                            proof {
                                                assert(false);
                                            }
                                        },
                                    }
                                },
                                _ => {
                                    // Style/Script emission is not implemented: skipped.
                                },
                            }
                        },
                        None => {
                            match r.0 {
                                Reference::Export => {
                                    proof {
                                        lemma_first_fatal_at(ms, refs, i as int);
                                    }
                                    return Err(Error::DependencyNotLoaded(r.2));
                                },
                                _ => {
                                    // target not materialized: skipped, best effort.
                                },
                            }
                        },
                    }
                },
                None => {
                    match r.0 {
                        Reference::Export => {
                            proof {
                                lemma_first_fatal_at(ms, refs, i as int);
                            }
                            return Err(Error::UnresolvedReference(r.2));
                        },
                        _ => {
                            // target unregistered: skipped, best effort.
                        },
                    }
                },
            }
            proof {
                assert(refs.take(i + 1).drop_last() =~= refs.take(i as int));
                assert(refs.take(i + 1).last() == refs[i as int]);
                assert(imports@.map_values(|s: String| s@) =~= import_lines(ms, refs.take(i + 1)));
                assert(exports@.map_values(|s: String| s@) =~= export_lines(ms, refs.take(i + 1)));
            }
            i += 1;
        }
        proof {
            assert(refs.take(refs.len() as int) =~= refs);
            lemma_first_fatal_none(ms, refs);
        }
        let mut text = join_lines(&imports);
        text.append(self.content.as_str());
        let suffix = join_lines(&exports);
        text.append(suffix.as_str());
        Ok(text)
    }
}

/// Export composition correctness: a module whose single reference re-exports
/// `symbol` from a module materialized at `url` composes to its own static
/// content followed by the re-export statement for `symbol` and `url`.
pub proof fn lemma_export_composition(ms: Seq<Module>, m: Module, symbol: String, url: Seq<char>)
    requires
        m.references@.len() == 1,
        m.references@[0].0 is Export,
        m.references@[0].1 == Some(symbol),
        target_url(ms, m.references@[0].2) == Some(url),
    ensures
        compose_spec(ms, m) == Ok::<Seq<char>, Error>(m.content@ + export_line(symbol@, url)),
{
    let refs = m.references@;
    assert(refs.first() == refs[0]);
    assert(refs.drop_first().len() == 0);
    assert(first_fatal(ms, refs.drop_first()) is None);
    assert(refs.drop_last().len() == 0);
    assert(refs.last() == refs[0]);
    assert(import_lines(ms, refs.drop_last()) == Seq::<Seq<char>>::empty());
    assert(export_lines(ms, refs.drop_last()) == Seq::<Seq<char>>::empty());
    let line = export_line(symbol@, url);
    assert(export_lines(ms, refs) == Seq::<Seq<char>>::empty().push(line));
    assert(join_nl(export_lines(ms, refs)) == line);
    assert(join_nl(import_lines(ms, refs)) == Seq::<char>::empty());
    assert(Seq::<char>::empty() + m.content@ + line =~= m.content@ + line);
}

proof fn lemma_export_lines_contains(
    ms: Seq<Module>,
    refs: Seq<(Reference, Option<String>, Id)>,
    j: int,
)
    requires
        0 <= j < refs.len(),
        emits_export(ms, refs[j]),
        refs[j].1 is Some,
    ensures
        export_lines(ms, refs).contains(
            export_line(opt_view(refs[j].1).unwrap(), target_url(ms, refs[j].2).unwrap()),
        ),
    decreases refs.len(),
{
    let line = export_line(opt_view(refs[j].1).unwrap(), target_url(ms, refs[j].2).unwrap());
    if j == refs.len() - 1 {
        assert(refs.last() == refs[j]);
        let init = export_lines(ms, refs.drop_last());
        assert(export_lines(ms, refs) == init.push(line));
        assert(export_lines(ms, refs)[init.len() as int] == line);
    } else {
        assert(refs.drop_last()[j] == refs[j]);
        lemma_export_lines_contains(ms, refs.drop_last(), j);
        let init = export_lines(ms, refs.drop_last());
        let k = choose|k: int| 0 <= k < init.len() && init[k] == line;
        if emits_export(ms, refs.last()) {
            assert(export_lines(ms, refs)[k] == line);
        }
    }
}

/// Export composition, in general: in any composition that succeeds, each
/// `Export` reference with an available target contributes its re-export
/// statement to the composed tail, and the whole tail stands after the
/// module's own static content.
pub proof fn lemma_export_in_composition(ms: Seq<Module>, m: Module, j: int)
    requires
        first_fatal(ms, m.references@) is None,
        0 <= j < m.references@.len(),
        m.references@[j].0 is Export,
        m.references@[j].1 is Some,
        target_url(ms, m.references@[j].2) is Some,
    ensures
        compose_spec(ms, m) == Ok::<Seq<char>, Error>(
            join_nl(import_lines(ms, m.references@)) + m.content@ + join_nl(
                export_lines(ms, m.references@),
            ),
        ),
        export_lines(ms, m.references@).contains(
            export_line(
                opt_view(m.references@[j].1).unwrap(),
                target_url(ms, m.references@[j].2).unwrap(),
            ),
        ),
{
    lemma_export_lines_contains(ms, m.references@, j);
}

/// Fatal reference handling: a composition that holds an `Export` reference
/// whose target URL is unavailable fails as a whole.
pub proof fn lemma_export_miss_fatal(ms: Seq<Module>, m: Module, i: int)
    requires
        0 <= i < m.references@.len(),
        m.references@[i].0 is Export,
        target_url(ms, m.references@[i].2) is None,
    ensures
        compose_spec(ms, m) is Err,
{
    lemma_export_miss_fatal_first(ms, m.references@, i);
}

proof fn lemma_export_miss_fatal_first(
    ms: Seq<Module>,
    refs: Seq<(Reference, Option<String>, Id)>,
    i: int,
)
    requires
        0 <= i < refs.len(),
        fatal_export(ms, refs[i]),
    ensures
        first_fatal(ms, refs) is Some,
    decreases i,
{
    assert(refs.first() == refs[0]);
    if !fatal_export(ms, refs.first()) {
        assert(refs.drop_first()[i - 1] == refs[i]);
        lemma_export_miss_fatal_first(ms, refs.drop_first(), i - 1);
    }
}

/// Best-effort reference handling: when no `Export` reference is unavailable
/// the composition succeeds, however many `Module`, `Script` or `Style`
/// references have unregistered or unmaterialized targets — those are skipped.
pub proof fn lemma_best_effort(ms: Seq<Module>, m: Module)
    requires
        forall|j: int| 0 <= j < m.references@.len() ==> !fatal_export(ms, #[trigger] m.references@[j]),
    ensures
        compose_spec(ms, m) is Ok,
{
    lemma_first_fatal_none(ms, m.references@);
}

} // verus!
