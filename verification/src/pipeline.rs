//! The whole rewriting of a module, step by step.

use vstd::prelude::*;
use walrus::{ExportId, ExportItem, FunctionId, ImportId, ImportKind, Module};

use crate::custom::{features_read, read_custom_data, symbols_read, table_view};
use crate::decode::{GodotWasmBindgenData, SymbolView};
use crate::error::{DecodeError, RewriteError};
use crate::runtime::imports::catalogue::{catalogue, catalogue_entries, views, Entry};
use crate::runtime::imports::{catalogue_names, generated, MODULE_NAME};
use crate::runtime::{
    add_runtime, lemma_runtime_kept, main_memory, runtime_held, runtime_installed, RuntimeData,
};
use crate::substitution::{
    described_imports, exports_rewritten, find_import, grown, imports_rewritten,
    substitute_exports, substitute_imports,
};
use crate::wasm::module::{
    export_ids, export_item, import_ids, import_kind, import_module, import_name,
};
use crate::wasm::{contents, exports_spare, lemma_spare_kept, lists, wf, ModuleView};

verus! {

/// Why a module could not be rewritten: its metadata is malformed, or the
/// metadata and the module do not fit.
#[derive(Clone, Copy, Debug, PartialEq, Eq)]
pub enum Error {
    Decode(DecodeError),
    Rewrite(RewriteError),
}

/// What has become of a module that was rewritten: what was installed in
/// it, and the symbol table that it carried, if it carried one.
#[derive(Debug)]
pub struct Rewritten {
    pub runtime: RuntimeData,
    pub symbols: Option<GodotWasmBindgenData>,
}

/// `view` with other custom sections.
pub open spec fn with_customs(view: ModuleView, customs: Seq<(Seq<char>, Seq<u8>)>) -> ModuleView {
    ModuleView { customs, ..view }
}

/// The content of the module after its metadata was read, where that went
/// well: the feature section in canonical form, and no symbol table.
pub open spec fn after_reading(old: ModuleView) -> ModuleView {
    with_customs(old, symbols_read(features_read(old.customs)->Ok_0).0)
}

/// What reading the metadata of a module gives: the symbol table, none, or
/// the error of the first section that is malformed.
pub open spec fn metadata_read(old: ModuleView) -> Result<Option<Seq<SymbolView>>, DecodeError> {
    match features_read(old.customs) {
        Err(e) => Err(e),
        Ok(customs) => symbols_read(customs).1,
    }
}

/// Whether `new` is `read` rewritten with the symbol table `table`: the slot
/// table is installed and the host's fixed imports are replaced, then the
/// exports that the table describes are rewritten, then the imports.
pub open spec fn rewritten(
    read: ModuleView,
    new: ModuleView,
    table: Option<Seq<SymbolView>>,
    runtime: RuntimeData,
) -> bool {
    exists|installed: ModuleView, based: ModuleView, exported: ModuleView|
        #![trigger runtime_installed(read, installed, runtime), generated(installed, based, runtime), wf(exported)]
        {
            &&& runtime_installed(read, installed, runtime)
            &&& generated(installed, based, runtime)
            &&& match table {
                None => exported == based && new == based,
                Some(symbols) => exports_rewritten(based, exported, symbols, runtime, Ok(()))
                    && imports_rewritten(exported, new, symbols, runtime, Ok(())),
            }
        }
}

/// Whether the rewriting of `read` with the symbol table `symbols` fails
/// with `e` and leaves `new`: the slot table is installed and the host's
/// fixed imports are replaced, and then the rewriting of the exports fails
/// so, or that of the imports does.
pub open spec fn rejected(
    read: ModuleView,
    new: ModuleView,
    symbols: Seq<SymbolView>,
    e: RewriteError,
) -> bool {
    exists|runtime: RuntimeData, installed: ModuleView, based: ModuleView, exported: ModuleView|
        #![trigger runtime_installed(read, installed, runtime), generated(installed, based, runtime), wf(exported)]
        {
            &&& runtime_installed(read, installed, runtime)
            &&& generated(installed, based, runtime)
            &&& (exports_rewritten(based, new, symbols, runtime, Err(e)) || (exports_rewritten(
                based,
                exported,
                symbols,
                runtime,
                Ok(()),
            ) && imports_rewritten(exported, new, symbols, runtime, Err(e))))
        }
}

/// The namespace and name of every import that the rewriting replaces where
/// the module carries the symbol table `table`: those that the catalogue
/// names, and those that the table describes.
pub open spec fn replaced_names(table: Option<Seq<SymbolView>>) -> Set<(Seq<char>, Seq<char>)> {
    Set::new(
        |p: (Seq<char>, Seq<char>)|
            catalogue_names().contains(p) || match table {
                Some(symbols) => described_imports(symbols).contains(p),
                None => false,
            },
    )
}

/// Where no export hands out the function of an import of `picked`, none
/// hands out that of an import of a part of `picked`.
pub proof fn lemma_spare_part(
    view: ModuleView,
    picked: Set<(Seq<char>, Seq<char>)>,
    part: Set<(Seq<char>, Seq<char>)>,
)
    requires
        exports_spare(view, picked),
        part.subset_of(picked),
    ensures
        exports_spare(view, part),
{
    assert forall|e: ExportId, i: ImportId|
        #![trigger view.exports[e], view.imports[i]]
        view.exports.dom().contains(e) && view.imports.dom().contains(i) && part.contains(
            (view.imports[i].module, view.imports[i].name),
        ) implies match view.imports[i].kind {
        ImportKind::Function(f) => view.exports[e].item != ExportItem::Function(f),
        _ => true,
    } by {
        assert(picked.contains((view.imports[i].module, view.imports[i].name)));
    }
}

/// Whether the rewriting replaces an import of this namespace and name.
pub fn is_replaced(
    list: &Vec<Entry>,
    table: Option<&GodotWasmBindgenData>,
    namespace: &String,
    name: &String,
) -> (r: bool)
    requires
        views(list@) == catalogue_entries(),
    ensures
        r == replaced_names(
            match table {
                Some(t) => Some(t@),
                None => None,
            },
        ).contains((namespace@, name@)),
{
    match table {
        Some(t) => {
            if find_import(t, namespace, name).is_some() {
                return true;
            }
        },
        None => {},
    }
    let space = MODULE_NAME.to_owned();
    if *namespace != space {
        return false;
    }
    let n = list.len();
    let mut k: usize = 0;
    while k < n
        invariant
            k <= n,
            n == list@.len(),
            views(list@) == catalogue_entries(),
            namespace@ == MODULE_NAME@,
            forall|j: int| 0 <= j < k ==> (#[trigger] catalogue_entries()[j]).name != name@,
        decreases n - k,
    {
        assert(list@[k as int]@ == views(list@)[k as int]);
        if list[k].name == *name {
            assert(catalogue_entries()[k as int].name == name@);
            return true;
        }
        k += 1;
    }
    false
}

/// Whether an export of the module hands out the function `f`.
pub fn hands_out(module: &Module, f: FunctionId) -> (r: bool)
    ensures
        r == exists|e: ExportId|
            contents(*module).exports.dom().contains(e) && (#[trigger] contents(
                *module,
            ).exports[e]).item == ExportItem::Function(f),
{
    let ids = export_ids(module);
    let n = ids.len();
    let mut k: usize = 0;
    while k < n
        invariant
            k <= n,
            n == ids@.len(),
            lists(ids@, contents(*module).exports.dom()),
            forall|j: int|
                0 <= j < k ==> (#[trigger] contents(*module).exports[ids@[j]]).item
                    != ExportItem::Function(f),
        decreases n - k,
    {
        assert(ids@.contains(ids@[k as int]));
        match export_item(module, ids[k]) {
            ExportItem::Function(g) => {
                if g == f {
                    return true;
                }
            },
            _ => {},
        }
        k += 1;
    }
    proof {
        assert forall|e: ExportId| contents(*module).exports.dom().contains(e) implies (
            #[trigger] contents(*module).exports[e]).item != ExportItem::Function(f) by {
            assert(ids@.contains(e));
            let j = choose|j: int| 0 <= j < ids@.len() && ids@[j] == e;
            assert(contents(*module).exports[ids@[j]].item != ExportItem::Function(f));
        }
    }
    false
}

/// Whether the module can be rewritten with the symbol table `table`
/// without losing what it exports: whether no export hands out the function
/// of an import that the rewriting replaces.
pub fn exports_spared(module: &Module, table: Option<&GodotWasmBindgenData>) -> (r: bool)
    ensures
        r == exports_spare(
            contents(*module),
            replaced_names(
                match table {
                    Some(t) => Some(t@),
                    None => None,
                },
            ),
        ),
{
    let ghost view = contents(*module);
    let ghost picked = replaced_names(
        match table {
            Some(t) => Some(t@),
            None => None,
        },
    );
    let list = catalogue();
    let ids = import_ids(module);
    let n = ids.len();
    let mut k: usize = 0;
    while k < n
        invariant
            k <= n,
            n == ids@.len(),
            view == contents(*module),
            picked == replaced_names(
                match table {
                    Some(t) => Some(t@),
                    None => None,
                },
            ),
            views(list@) == catalogue_entries(),
            lists(ids@, view.imports.dom()),
            forall|j: int, e: ExportId|
                #![trigger view.exports[e], view.imports[ids@[j]]]
                0 <= j < k && view.exports.dom().contains(e) && picked.contains(
                    (view.imports[ids@[j]].module, view.imports[ids@[j]].name),
                ) ==> match view.imports[ids@[j]].kind {
                    ImportKind::Function(f) => view.exports[e].item != ExportItem::Function(f),
                    _ => true,
                },
        decreases n - k,
    {
        let id = ids[k];
        assert(ids@.contains(id));
        match import_kind(module, id) {
            ImportKind::Function(f) => {
                let namespace = import_module(module, id);
                let name = import_name(module, id);
                if is_replaced(&list, table, &namespace, &name) && hands_out(module, f) {
                    proof {
                        let e = choose|e: ExportId|
                            view.exports.dom().contains(e) && (#[trigger] view.exports[e]).item
                                == ExportItem::Function(f);
                        assert(view.imports.dom().contains(id));
                        assert(view.exports[e].item == ExportItem::Function(f)
                            && view.imports[id].kind == ImportKind::Function(f));
                    }
                    return false;
                }
            },
            _ => {},
        }
        k += 1;
    }
    proof {
        assert forall|e: ExportId, i: ImportId|
            #![trigger view.exports[e], view.imports[i]]
            view.exports.dom().contains(e) && view.imports.dom().contains(i) && picked.contains(
                (view.imports[i].module, view.imports[i].name),
            ) implies match view.imports[i].kind {
            ImportKind::Function(f) => view.exports[e].item != ExportItem::Function(f),
            _ => true,
        } by {
            assert(ids@.contains(i));
            let j = choose|j: int| 0 <= j < ids@.len() && ids@[j] == i;
            assert(view.imports[ids@[j]] == view.imports[i]);
        }
    }
    true
}

/// Rewrites a module: takes its metadata out, installs the slot table,
/// replaces the host's fixed imports by adapters, and rewrites the exports
/// and imports that the metadata describes.
///
/// The first step that fails ends the rewriting with its error; the module
/// is then left as that step left it, and is not fit to be written out.
///
/// The function that a replaced import brought in is deleted. So no export
/// may hand out the function of an import that the catalogue names, or of
/// one that the module's symbol table describes.
pub fn rewrite(module: &mut Module) -> (r: Result<Rewritten, Error>)
    requires
        wf(contents(*old(module))),
        metadata_read(contents(*old(module))) matches Ok(table) ==> exports_spare(
            contents(*old(module)),
            replaced_names(table),
        ),
    ensures
        wf(contents(*final(module))),
        match r {
            Ok(done) => {
                &&& runtime_held(contents(*final(module)), done.runtime)
                &&& table_view(Ok(done.symbols)) == metadata_read(contents(*old(module)))
                &&& main_memory(contents(*old(module)), 0) == Some(done.runtime.main_memory)
                &&& rewritten(
                    after_reading(contents(*old(module))),
                    contents(*final(module)),
                    match done.symbols {
                        Some(table) => Some(table@),
                        None => None,
                    },
                    done.runtime,
                )
            },
            Err(Error::Decode(e)) => metadata_read(contents(*old(module))) == Err::<
                Option<Seq<SymbolView>>,
                _,
            >(e),
            Err(Error::Rewrite(e)) => match metadata_read(contents(*old(module))) {
                Err(_) => false,
                Ok(table) => if main_memory(contents(*old(module)), 0) is None {
                    &&& e == RewriteError::NoMainMemory
                    &&& contents(*final(module)) == after_reading(contents(*old(module)))
                } else {
                    table matches Some(symbols) && rejected(
                        after_reading(contents(*old(module))),
                        contents(*final(module)),
                        symbols,
                        e,
                    )
                },
            },
        },
{
    let ghost start = contents(*module);
    let symbols = match read_custom_data(module) {
        Ok(symbols) => symbols,
        Err(e) => {
            return Err(Error::Decode(e));
        },
    };
    let ghost read = contents(*module);
    proof {
        assert(read == after_reading(start));
        assert(wf(read));
        assert(metadata_read(start) == table_view(Ok(symbols)));
        lemma_spare_part(start, replaced_names(metadata_read(start)->Ok_0), catalogue_names());
        assert(exports_spare(read, catalogue_names()));
        assert(main_memory(read, 0) == main_memory(start, 0)) by {
            lemma_main_memory(start, read, 0);
        }
    }
    let runtime = match add_runtime(module) {
        Ok(runtime) => runtime,
        Err(e) => {
            return Err(Error::Rewrite(e));
        },
    };
    let ghost based = contents(*module);
    match &symbols {
        Some(table) => {
            proof {
                lemma_spare_part(
                    start,
                    replaced_names(Some(table@)),
                    described_imports(table@),
                );
                assert(exports_spare(read, described_imports(table@)));
                lemma_spare_kept(read, based, described_imports(table@));
            }
            match substitute_exports(module, table, &runtime) {
                Ok(()) => {},
                Err(e) => {
                    proof {
                        let installed = choose|mid: ModuleView|
                            #![trigger runtime_installed(read, mid, runtime)]
                            runtime_installed(read, mid, runtime) && generated(
                                mid,
                                based,
                                runtime,
                            );
                        assert(wf(based));
                        assert(rejected(read, contents(*module), table@, e));
                    }
                    return Err(Error::Rewrite(e));
                },
            }
            let ghost exported = contents(*module);
            proof {
                lemma_spare_kept(based, exported, described_imports(table@));
                lemma_held_grown(based, exported, runtime);
            }
            match substitute_imports(module, table, &runtime) {
                Ok(()) => {},
                Err(e) => {
                    proof {
                        let installed = choose|mid: ModuleView|
                            #![trigger runtime_installed(read, mid, runtime)]
                            runtime_installed(read, mid, runtime) && generated(
                                mid,
                                based,
                                runtime,
                            );
                        assert(wf(exported));
                        assert(rejected(read, contents(*module), table@, e));
                    }
                    return Err(Error::Rewrite(e));
                },
            }
            proof {
                let installed = choose|mid: ModuleView|
                    #![trigger runtime_installed(read, mid, runtime)]
                    runtime_installed(read, mid, runtime) && generated(mid, based, runtime);
                assert(wf(exported));
                assert(rewritten(read, contents(*module), Some(table@), runtime));
                lemma_runtime_kept(exported, contents(*module), runtime);
            }
        },
        None => {
            proof {
                let installed = choose|mid: ModuleView|
                    #![trigger runtime_installed(read, mid, runtime)]
                    runtime_installed(read, mid, runtime) && generated(mid, based, runtime);
                assert(wf(based));
                assert(rewritten(read, based, None, runtime));
            }
        },
    }
    Ok(Rewritten { runtime, symbols })
}

/// The three functions of the slot table stay in a module that grows.
pub proof fn lemma_held_grown(old: ModuleView, new: ModuleView, runtime: RuntimeData)
    requires
        runtime_held(old, runtime),
        grown(old, new),
    ensures
        runtime_held(new, runtime),
{
    assert(old.funcs.submap_of(new.funcs));
    assert(new.funcs.dom().contains(runtime.alloc_func));
    assert(new.funcs[runtime.alloc_func] == old.funcs[runtime.alloc_func]);
    assert(new.funcs.dom().contains(runtime.free_func));
    assert(new.funcs[runtime.free_func] == old.funcs[runtime.free_func]);
    assert(new.funcs.dom().contains(runtime.get_func));
    assert(new.funcs[runtime.get_func] == old.funcs[runtime.get_func]);
}

/// The main memory of a module depends on its exports alone.
pub proof fn lemma_main_memory(a: ModuleView, b: ModuleView, from: int)
    requires
        a.exports == b.exports,
        a.export_order == b.export_order,
    ensures
        main_memory(a, from) == main_memory(b, from),
    decreases a.export_order.len() - from,
{
    if 0 <= from < a.export_order.len() {
        lemma_main_memory(a, b, from + 1);
    }
}

} // verus!
