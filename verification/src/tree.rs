//! The tree of declarations as a value: an arena of declarations, each with
//! a reference back to its owner and the list of what it owns.

use vstd::prelude::*;
use crate::model::{
    child_named, declares, imports_sound, declared, kind_allows, linked, siblings,
    well_formed, Binding, DeclView, Kind, Visibility,
};

verus! {

/// A name bound by an import.
pub(crate) struct Import {
    pub(crate) name: String,
    pub(crate) binding: Binding,
}

/// A declaration, with what it owns and what it has imported.
pub(crate) struct Decl {
    pub(crate) name: String,
    pub(crate) kind: Kind,
    pub(crate) visibility: Visibility,
    pub(crate) parent: Option<usize>,
    pub(crate) children: Vec<usize>,
    pub(crate) imports: Vec<Import>,
}

/// A tree of declarations under one root namespace.
pub struct Tree {
    pub(crate) nodes: Vec<Decl>,
}

/// The `k`-th import binds `name`.
pub(crate) open spec fn binds(imports: Seq<Import>, name: Seq<char>, k: int) -> bool {
    0 <= k < imports.len() && imports[k].name@ == name
}

/// A list of imports as a map from the names that it binds.
pub(crate) open spec fn bindings(imports: Seq<Import>) -> Map<Seq<char>, Binding> {
    Map::new(
        |name: Seq<char>| exists|k: int| binds(imports, name, k),
        |name: Seq<char>| imports[choose|k: int| binds(imports, name, k)].binding,
    )
}

/// No two imports of the list bind the same name.
pub(crate) open spec fn distinct_names(imports: Seq<Import>) -> bool {
    forall|i: int, j: int|
        0 <= i < j < imports.len() ==> (#[trigger] imports[i]).name@ != (
        #[trigger] imports[j]).name@
}

/// A declaration as the model sees it.
pub(crate) open spec fn decl_view(decl: Decl) -> DeclView {
    DeclView {
        name: decl.name@,
        kind: decl.kind,
        visibility: decl.visibility,
        parent: decl.parent,
        imports: bindings(decl.imports@),
    }
}

impl View for Tree {
    type V = Seq<DeclView>;

    closed spec fn view(&self) -> Seq<DeclView> {
        self.model()
    }
}

impl Tree {
    /// The list of what `x` owns holds exactly the declarations whose owner
    /// is `x`, and the imports of `x` bind each name once.
    pub(crate) open spec fn indexed(&self, x: usize) -> bool {
        &&& forall|k: int|
            0 <= k < self.nodes@[x as int].children@.len() ==> self.owns(
                x,
                #[trigger] self.nodes@[x as int].children@[k],
            )
        &&& forall|d: usize| #[trigger]
            self.owns(x, d) ==> self.nodes@[x as int].children@.contains(d)
        &&& distinct_names(self.nodes@[x as int].imports@)
    }

    /// `d` is a declaration other than the root, and `x` is its owner.
    pub(crate) open spec fn owns(&self, x: usize, d: usize) -> bool {
        0 < d < self.nodes@.len() && self.nodes@[d as int].parent == Some(x)
    }

    /// The declarations of the tree, in the order in which they were made.
    pub(crate) open spec fn model(&self) -> Seq<DeclView> {
        Seq::new(self.nodes@.len(), |d: int| decl_view(self.nodes@[d]))
    }

    /// The tree is well formed, and so is the way it is held.
    pub(crate) open spec fn inv(&self) -> bool {
        &&& well_formed(self.model())
        &&& forall|x: usize| x < self.nodes@.len() ==> #[trigger] self.indexed(x)
    }

    /// The tree is valid: what it holds is one well-formed tree.
    pub closed spec fn wf(&self) -> bool {
        self.inv()
    }

    /// What the view and the validity of a tree are, for the rest of the
    /// crate.
    pub(crate) proof fn lemma_open(&self)
        ensures
            self@ == self.model(),
            self.wf() == self.inv(),
    {
    }

    /// A valid tree has a well-formed model.
    pub proof fn lemma_wf(&self)
        requires
            self.wf(),
        ensures
            well_formed(self@),
    {
    }

    /// A tree that holds the root namespace and nothing else. The root has
    /// the empty name and is public.
    pub fn new() -> (tree: Tree)
        ensures
            tree.wf(),
            tree@ == seq![root_decl()],
    {
        let root = Decl {
            name: String::new(),
            kind: Kind::Namespace,
            visibility: Visibility::Public,
            parent: None,
            children: Vec::new(),
            imports: Vec::new(),
        };
        let mut nodes: Vec<Decl> = Vec::new();
        nodes.push(root);
        let tree = Tree { nodes };
        proof {
            assert(bindings(tree.nodes@[0].imports@) =~= Map::empty());
            assert(tree@ =~= seq![root_decl()]);
            assert(tree.indexed(0));
            assert(imports_sound(tree@, 0));
        }
        tree
    }

    /// Finds what `owner` declares under `name`.
    pub(crate) fn find_child(&self, owner: usize, name: &String) -> (found: Option<usize>)
        requires
            self.inv(),
            owner < self.nodes@.len(),
        ensures
            found == child_named(self.model(), owner, name@),
    {
        let ghost t = self.model();
        let children = &self.nodes[owner].children;
        let mut k: usize = 0;
        while k < children.len()
            invariant
                self.inv(),
                t == self.model(),
                owner < self.nodes@.len(),
                children == &self.nodes@[owner as int].children,
                k <= children@.len(),
                forall|j: int| 0 <= j < k ==> t[children@[j] as int].name != name@,
            decreases children@.len() - k,
        {
            let d = children[k];
            assert(self.indexed(owner));
            assert(self.owns(owner, children@[k as int]));
            if self.nodes[d].name == *name {
                proof {
                    assert(declares(t, owner, name@, d));
                    let e = choose|e: usize| declares(t, owner, name@, e);
                    if e != d {
                        assert(siblings(t, d, e));
                    }
                }
                return Some(d);
            }
            k += 1;
        }
        proof {
            assert(self.indexed(owner));
            assert forall|d: usize| !declares(t, owner, name@, d) by {
                if declares(t, owner, name@, d) {
                    assert(self.owns(owner, d));
                    assert(children@.contains(d));
                }
            }
        }
        None
    }

    /// Adds a declaration of the given kind to `owner`, unless `owner`
    /// cannot own one or already declares the name.
    pub(crate) fn declare(
        &mut self,
        owner: usize,
        name: &str,
        kind: Kind,
        visibility: Visibility,
    ) -> (made: Option<usize>)
        requires
            old(self).inv(),
            kind is Variant && owner < old(self).nodes@.len() ==> visibility == old(
                self,
            ).nodes@[owner as int].visibility,
        ensures
            final(self).inv(),
            declared(old(self).model(), final(self).model(), made, owner, name@, kind, visibility),
    {
        if owner >= self.nodes.len() {
            return None;
        }
        if !owns_kind(self.nodes[owner].kind, kind) {
            return None;
        }
        let name = name.to_owned();
        if self.find_child(owner, &name).is_some() {
            return None;
        }
        let d = self.nodes.len();
        let decl = Decl {
            name,
            kind,
            visibility,
            parent: Some(owner),
            children: Vec::new(),
            imports: Vec::new(),
        };
        let ghost before = *self;
        self.nodes.push(decl);
        self.nodes[owner].children.push(d);
        proof {
            before.lemma_declared(*self, owner, d);
        }
        Some(d)
    }

    /// Adding a declaration under a free name, and listing it with its
    /// owner, keeps the tree valid and adds one declaration to the model.
    proof fn lemma_declared(self, after: Tree, owner: usize, d: usize)
        requires
            self.inv(),
            owner < self.nodes@.len(),
            d == self.nodes@.len(),
            after.nodes@.len() == d + 1,
            forall|x: int| 0 <= x < d && x != owner ==> after.nodes@[x] == self.nodes@[x],
            after.nodes@[owner as int].name == self.nodes@[owner as int].name,
            after.nodes@[owner as int].kind == self.nodes@[owner as int].kind,
            after.nodes@[owner as int].visibility == self.nodes@[owner as int].visibility,
            after.nodes@[owner as int].parent == self.nodes@[owner as int].parent,
            after.nodes@[owner as int].imports == self.nodes@[owner as int].imports,
            after.nodes@[owner as int].children@ == self.nodes@[owner as int].children@.push(d),
            after.nodes@[d as int].parent == Some(owner),
            after.nodes@[d as int].children@.len() == 0,
            after.nodes@[d as int].imports@.len() == 0,
            kind_allows(self.nodes@[owner as int].kind, after.nodes@[d as int].kind),
            after.nodes@[d as int].kind is Variant ==> after.nodes@[d as int].visibility
                == self.nodes@[owner as int].visibility,
            child_named(self.model(), owner, after.nodes@[d as int].name@) is None,
        ensures
            after.inv(),
            after.model() == self.model().push(decl_view(after.nodes@[d as int])),
            decl_view(after.nodes@[d as int]).imports == Map::<Seq<char>, Binding>::empty(),
    {
        let t = self.model();
        let u = after.model();
        assert(u.len() == after.nodes.len());
        assert(bindings(after.nodes@[d as int].imports@) =~= Map::empty());
        assert(u =~= t.push(decl_view(after.nodes@[d as int])));
        assert forall|e: usize| 0 < e < u.len() implies #[trigger] linked(u, e) by {
            if e < d {
                assert(linked(t, e));
            }
        }
        assert forall|e: usize, f: usize| #[trigger] siblings(u, e, f) implies u[e as int].name
            != u[f as int].name by {
            if e < d && f < d {
                assert(siblings(t, e, f));
            } else if e < d {
                assert(!declares(t, owner, u[d as int].name, e));
            } else {
                assert(!declares(t, owner, u[d as int].name, f));
            }
        }
        assert forall|x: usize| x < u.len() implies #[trigger] imports_sound(u, x) by {
            if x < d {
                assert(imports_sound(t, x));
            }
        }
        assert forall|x: usize| x < after.nodes@.len() implies #[trigger] after.indexed(x) by {
            if x < d {
                assert(self.indexed(x));
                let before = self.nodes@[x as int].children@;
                let now = after.nodes@[x as int].children@;
                assert forall|k: int| 0 <= k < now.len() implies after.owns(
                    x,
                    #[trigger] now[k],
                ) by {
                    if k < before.len() {
                        assert(self.owns(x, before[k]));
                    }
                }
                assert forall|e: usize| #[trigger] after.owns(x, e) implies now.contains(e) by {
                    if e < d {
                        assert(self.owns(x, e));
                        let k = choose|k: int| 0 <= k < before.len() && before[k] == e;
                        assert(now[k] == e);
                    } else {
                        assert(now[before.len() as int] == e);
                    }
                }
            } else {
                assert forall|e: usize| #[trigger] after.owns(x, e) implies false by {
                    if e < d {
                        assert(linked(t, e));
                    }
                }
            }
        }
    }

    /// Adds a namespace to the namespace `owner`.
    ///
    /// Gives the new declaration, or nothing where `owner` is not a
    /// namespace of the tree or already declares `name`.
    pub fn add_namespace(&mut self, owner: usize, name: &str, visibility: Visibility) -> (made:
        Option<usize>)
        requires
            old(self).wf(),
        ensures
            final(self).wf(),
            declared(old(self)@, final(self)@, made, owner, name@, Kind::Namespace, visibility),
    {
        self.declare(owner, name, Kind::Namespace, visibility)
    }

    /// Adds a function to `owner`, a namespace or a structure.
    ///
    /// Gives the new declaration, or nothing where `owner` is neither or
    /// already declares `name`.
    pub fn add_function(&mut self, owner: usize, name: &str, visibility: Visibility) -> (made:
        Option<usize>)
        requires
            old(self).wf(),
        ensures
            final(self).wf(),
            declared(old(self)@, final(self)@, made, owner, name@, Kind::Function, visibility),
    {
        self.declare(owner, name, Kind::Function, visibility)
    }

    /// Adds a structure to the namespace `owner`.
    ///
    /// Gives the new declaration, or nothing where `owner` is not a
    /// namespace of the tree or already declares `name`.
    pub fn add_structure(&mut self, owner: usize, name: &str, visibility: Visibility) -> (made:
        Option<usize>)
        requires
            old(self).wf(),
        ensures
            final(self).wf(),
            declared(old(self)@, final(self)@, made, owner, name@, Kind::Structure, visibility),
    {
        self.declare(owner, name, Kind::Structure, visibility)
    }

    /// Adds an enumeration to the namespace `owner`.
    ///
    /// Gives the new declaration, or nothing where `owner` is not a
    /// namespace of the tree or already declares `name`.
    pub fn add_enumeration(&mut self, owner: usize, name: &str, visibility: Visibility) -> (made:
        Option<usize>)
        requires
            old(self).wf(),
        ensures
            final(self).wf(),
            declared(old(self)@, final(self)@, made, owner, name@, Kind::Enumeration, visibility),
    {
        self.declare(owner, name, Kind::Enumeration, visibility)
    }

    /// Adds a field to the structure `owner`.
    ///
    /// Gives the new declaration, or nothing where `owner` is not a
    /// structure of the tree or already declares `name`.
    pub fn add_field(&mut self, owner: usize, name: &str, visibility: Visibility) -> (made: Option<
        usize,
    >)
        requires
            old(self).wf(),
        ensures
            final(self).wf(),
            declared(old(self)@, final(self)@, made, owner, name@, Kind::Field, visibility),
    {
        self.declare(owner, name, Kind::Field, visibility)
    }

    /// Adds a variant to the enumeration `owner`. The variant is as visible
    /// as the enumeration: there is nothing to choose.
    ///
    /// Gives the new declaration, or nothing where `owner` is not an
    /// enumeration of the tree or already declares `name`.
    pub fn add_variant(&mut self, owner: usize, name: &str) -> (made: Option<usize>)
        requires
            old(self).wf(),
        ensures
            final(self).wf(),
            declared(
                old(self)@,
                final(self)@,
                made,
                owner,
                name@,
                Kind::Variant,
                old(self)@[owner as int].visibility,
            ),
    {
        if owner >= self.nodes.len() {
            return None;
        }
        let visibility = self.nodes[owner].visibility;
        self.declare(owner, name, Kind::Variant, visibility)
    }

    /// The root namespace.
    pub fn root(&self) -> (root: usize)
        ensures
            root == 0,
    {
        0
    }

    /// What kind of declaration `d` is.
    pub fn kind(&self, d: usize) -> (kind: Kind)
        requires
            d < self@.len(),
        ensures
            kind == self@[d as int].kind,
    {
        self.nodes[d].kind
    }

    /// Who may use `d`.
    pub fn visibility(&self, d: usize) -> (visibility: Visibility)
        requires
            d < self@.len(),
        ensures
            visibility == self@[d as int].visibility,
    {
        self.nodes[d].visibility
    }

    /// The owner of `d`; the root has none.
    pub fn parent(&self, d: usize) -> (parent: Option<usize>)
        requires
            d < self@.len(),
        ensures
            parent == self@[d as int].parent,
    {
        self.nodes[d].parent
    }

    /// The name that `d` was declared with; that of the root is empty.
    pub fn name(&self, d: usize) -> (name: String)
        requires
            d < self@.len(),
        ensures
            name@ == self@[d as int].name,
    {
        self.nodes[d].name.clone()
    }

    /// How many declarations the tree holds, the root among them.
    pub fn len(&self) -> (len: usize)
        ensures
            len == self@.len(),
    {
        self.nodes.len()
    }
}

/// Whether a declaration of kind `owner` can own one of kind `kind`.
pub(crate) fn owns_kind(owner: Kind, kind: Kind) -> (allowed: bool)
    ensures
        allowed == kind_allows(owner, kind),
{
    match owner {
        Kind::Namespace => match kind {
            Kind::Namespace | Kind::Function | Kind::Structure | Kind::Enumeration => true,
            _ => false,
        },
        Kind::Structure => match kind {
            Kind::Field | Kind::Function => true,
            _ => false,
        },
        Kind::Enumeration => match kind {
            Kind::Variant => true,
            _ => false,
        },
        _ => false,
    }
}

/// The root of a new tree.
pub open spec fn root_decl() -> DeclView {
    DeclView {
        name: Seq::empty(),
        kind: Kind::Namespace,
        visibility: Visibility::Public,
        parent: None,
        imports: Map::empty(),
    }
}

} // verus!
