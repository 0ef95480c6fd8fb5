use vstd::prelude::*;
use crate::asset::Asset;
use crate::asset::OutputFormat;
use crate::cli::{CliError, CliErrorView, GenerateArgs};
use crate::lists::{first_occurrences, sorted_texts, dedupe_preserve_order, sort_addresses};
use crate::output::{OutputFile, file_views, list_files, address_files};
use crate::text::{concat, texts, trim_text, trimmed};
use crate::xml::{
    XmlDocument, XmlNode, xml_document_nodes, parse_sdn_document, has_tag, attribute_of, is_ancestor_or_self, has_tagged_ancestor,
    node_has_tag, node_attribute, ancestor_or_self, tagged_ancestor, first_named, attribute_lookup_finds_first_of_name,
};

verus! {

/// The name of the SDN feature type that lists the addresses of `asset`.
pub open spec fn feature_type_name(asset: Asset) -> Seq<char> {
    "Digital Currency Address - "@ + asset.spec_text()
}

/// The name of the SDN feature type that lists the addresses of `asset`.
pub fn feature_type_text(asset: Asset) -> (r: String)
    ensures
        r@ == feature_type_name(asset),
{
    concat("Digital Currency Address - ", asset.as_str())
}

/// The trimmed text of a node, if it has text.
pub open spec fn trimmed_text(node: XmlNode) -> Option<Seq<char>> {
    match node.text {
        Some(t) => Some(trimmed(t@)),
        None => None,
    }
}

/// The ID that node `j` gives to the feature type `target`: the node is a
/// `FeatureType` element under a `FeatureTypeValues` element whose trimmed
/// text is `target`, and it has an `ID` attribute.
pub open spec fn feature_type_id_at(nodes: Seq<XmlNode>, j: int, target: Seq<char>) -> Option<
    Seq<char>,
> {
    if has_tag(nodes[j], "FeatureType"@) && trimmed_text(nodes[j]) == Some(target)
        && has_tagged_ancestor(nodes, j, "FeatureTypeValues"@) {
        attribute_of(nodes[j], "ID"@)
    } else {
        None
    }
}

/// The ID given to the feature type `target` by the first node from position
/// `from` on that gives it one.
pub open spec fn first_feature_type_id(nodes: Seq<XmlNode>, target: Seq<char>, from: int) -> Option<
    Seq<char>,
>
    decreases nodes.len() - from,
{
    if from < 0 || from >= nodes.len() {
        None
    } else {
        match feature_type_id_at(nodes, from, target) {
            Some(id) => Some(id),
            None => first_feature_type_id(nodes, target, from + 1),
        }
    }
}

/// The ID of the feature type that lists the addresses of `asset`.
pub fn find_address_id(doc: &XmlDocument, asset: Asset) -> (r: Result<String, CliError>)
    ensures
        match r {
            Ok(id) => first_feature_type_id(doc@, feature_type_name(asset), 0) == Some(id@),
            Err(e) => first_feature_type_id(doc@, feature_type_name(asset), 0) is None && e@
                == CliErrorView::FeatureTypeNotFound(feature_type_name(asset)),
        },
{
    let target = feature_type_text(asset);
    let feature_type = "FeatureType".to_owned();
    let values_tag = "FeatureTypeValues".to_owned();
    let id_name = "ID".to_owned();
    let nodes = &doc.nodes;
    let n = nodes.len();
    let mut j: usize = 0;
    while j < n
        invariant
            j <= n,
            n == nodes@.len(),
            nodes@ == doc@,
            target@ == feature_type_name(asset),
            feature_type@ == "FeatureType"@,
            values_tag@ == "FeatureTypeValues"@,
            id_name@ == "ID"@,
            first_feature_type_id(doc@, target@, 0) == first_feature_type_id(doc@, target@, j as int),
        decreases n - j,
    {
        let node = &nodes[j];
        if node_has_tag(node, &feature_type) {
            let text_matches = match &node.text {
                Some(t) => {
                    let tt = trim_text(t.as_str());
                    tt.to_owned() == target
                },
                None => false,
            };
            if text_matches && tagged_ancestor(nodes, j, &values_tag) {
                match node_attribute(node, &id_name) {
                    Some(id) => {
                        return Ok(id.clone());
                    },
                    None => {},
                }
            }
        }
        j = j + 1;
    }
    Err(CliError::FeatureTypeNotFound(target))
}

/// The address that node `j` lists: the trimmed text of a `VersionDetail`
/// element, when it is not empty.
pub open spec fn detail_at(nodes: Seq<XmlNode>, j: int) -> Seq<Seq<char>> {
    if has_tag(nodes[j], "VersionDetail"@) && trimmed_text(nodes[j]) is Some
        && trimmed_text(nodes[j])->0.len() > 0 {
        seq![trimmed_text(nodes[j])->0]
    } else {
        seq![]
    }
}

/// The addresses listed from position `j` on within the subtree of node `i`:
/// the run of nodes from `j` that have `i` as ancestor or are `i`. (In
/// document order the subtree of a node is the run that starts at the node,
/// which is what `Node::descendants` yields.)
pub open spec fn details_from(nodes: Seq<XmlNode>, i: int, j: int) -> Seq<Seq<char>>
    decreases nodes.len() - j,
{
    if 0 <= j < nodes.len() && is_ancestor_or_self(nodes, i, j) {
        detail_at(nodes, j) + details_from(nodes, i, j + 1)
    } else {
        seq![]
    }
}

/// The addresses listed, from position `i` on, under the nodes whose
/// `FeatureTypeID` attribute is `id`, in document order.
pub open spec fn addresses_from(nodes: Seq<XmlNode>, id: Seq<char>, i: int) -> Seq<Seq<char>>
    decreases nodes.len() - i,
{
    if i < 0 || i >= nodes.len() {
        seq![]
    } else {
        (if attribute_of(nodes[i], "FeatureTypeID"@) == Some(id) {
            details_from(nodes, i, i)
        } else {
            seq![]
        }) + addresses_from(nodes, id, i + 1)
    }
}

/// The addresses listed under the nodes whose `FeatureTypeID` is
/// `address_id`, in document order, repeats included.
pub fn sanctioned_addresses(doc: &XmlDocument, address_id: &str) -> (r: Vec<String>)
    ensures
        texts(r@) == addresses_from(doc@, address_id@, 0),
{
    let id = address_id.to_owned();
    let id_name = "FeatureTypeID".to_owned();
    let detail_tag = "VersionDetail".to_owned();
    let nodes = &doc.nodes;
    let n = nodes.len();
    let mut out: Vec<String> = Vec::new();
    let mut i: usize = 0;
    assert(texts(out@) =~= Seq::<Seq<char>>::empty());
    while i < n
        invariant
            i <= n,
            n == nodes@.len(),
            nodes@ == doc@,
            id@ == address_id@,
            id_name@ == "FeatureTypeID"@,
            detail_tag@ == "VersionDetail"@,
            addresses_from(doc@, id@, 0) == texts(out@) + addresses_from(doc@, id@, i as int),
        decreases n - i,
    {
        let ghost before = texts(out@);
        let matches = match node_attribute(&nodes[i], &id_name) {
            Some(v) => *v == id,
            None => false,
        };
        if matches {
            let mut j: usize = i;
            while j < n && ancestor_or_self(nodes, i, j)
                invariant
                    i <= j <= n,
                    n == nodes@.len(),
                    nodes@ == doc@,
                    detail_tag@ == "VersionDetail"@,
                    texts(out@) + details_from(doc@, i as int, j as int) == before
                        + details_from(doc@, i as int, i as int),
                decreases n - j,
            {
                let ghost prev = texts(out@);
                let node = &nodes[j];
                if node_has_tag(node, &detail_tag) {
                    match &node.text {
                        Some(t) => {
                            let tt = trim_text(t.as_str());
                            if !tt.is_empty() {
                                out.push(tt.to_owned());
                            }
                        },
                        None => {},
                    }
                }
                assert(texts(out@) =~= prev + detail_at(doc@, j as int));
                assert(details_from(doc@, i as int, j as int) == detail_at(doc@, j as int)
                    + details_from(doc@, i as int, j + 1));
                assert(texts(out@) + details_from(doc@, i as int, j + 1) =~= prev
                    + details_from(doc@, i as int, j as int));
                j = j + 1;
            }
            assert(details_from(doc@, i as int, j as int) =~= Seq::<Seq<char>>::empty());
            assert(texts(out@) =~= before + details_from(doc@, i as int, i as int));
        } else {
            assert(texts(out@) =~= before);
        }
        assert(addresses_from(doc@, id@, i as int) == (if attribute_of(
            doc@[i as int],
            "FeatureTypeID"@,
        ) == Some(id@) {
            details_from(doc@, i as int, i as int)
        } else {
            seq![]
        }) + addresses_from(doc@, id@, i + 1));
        assert(texts(out@) + addresses_from(doc@, id@, i + 1) =~= before + addresses_from(
            doc@,
            id@,
            i as int,
        ));
        i = i + 1;
    }
    out
}

/// The list written for `asset`: the addresses under its feature type, each
/// once, in ascending order; none when the document names no such feature
/// type.
pub open spec fn asset_address_list(nodes: Seq<XmlNode>, asset: Asset) -> Option<Seq<Seq<char>>> {
    match first_feature_type_id(nodes, feature_type_name(asset), 0) {
        Some(id) => Some(sorted_texts(first_occurrences(addresses_from(nodes, id, 0)))),
        None => None,
    }
}

/// The sorted list of the distinct addresses of `asset`.
pub fn asset_addresses(doc: &XmlDocument, asset: Asset) -> (r: Result<Vec<String>, CliError>)
    ensures
        match r {
            Ok(list) => asset_address_list(doc@, asset) == Some(texts(list@)),
            Err(e) => asset_address_list(doc@, asset) is None && e@
                == CliErrorView::FeatureTypeNotFound(feature_type_name(asset)),
        },
{
    let id = match find_address_id(doc, asset) {
        Ok(id) => id,
        Err(e) => {
            return Err(e);
        },
    };
    let mut addresses = sanctioned_addresses(doc, id.as_str());
    dedupe_preserve_order(&mut addresses);
    sort_addresses(&mut addresses);
    Ok(addresses)
}

/// The files to write for `assets` in turn, up to the first asset whose
/// feature type is missing, and that error.
pub open spec fn files_for_assets(
    nodes: Seq<XmlNode>,
    assets: Seq<Asset>,
    formats: Seq<OutputFormat>,
) -> (Seq<(Seq<char>, Seq<char>)>, Option<CliErrorView>)
    decreases assets.len(),
{
    if assets.len() == 0 {
        (seq![], None)
    } else {
        match asset_address_list(nodes, assets[0]) {
            None => (seq![], Some(CliErrorView::FeatureTypeNotFound(feature_type_name(assets[0])))),
            Some(list) => {
                let rest = files_for_assets(nodes, assets.drop_first(), formats);
                (list_files(list, assets[0], formats) + rest.0, rest.1)
            },
        }
    }
}

/// What generation makes of the text of an SDN file: no files and the parse
/// error when the text is not XML, else the files of the assets in turn.
pub open spec fn generation_outcome(
    sdn_text: Seq<char>,
    assets: Seq<Asset>,
    formats: Seq<OutputFormat>,
) -> (Seq<(Seq<char>, Seq<char>)>, Option<CliErrorView>) {
    match xml_document_nodes(sdn_text) {
        Ok(nodes) => files_for_assets(nodes, assets, formats),
        Err(m) => (seq![], Some(CliErrorView::Xml(m))),
    }
}

/// The files to write, in order, and the error that stops generation after
/// them, if any.
pub struct GenerationPlan {
    pub files: Vec<OutputFile>,
    pub error: Option<CliError>,
}

/// The mathematical value of a generation plan.
pub open spec fn plan_view(plan: GenerationPlan) -> (Seq<(Seq<char>, Seq<char>)>, Option<CliErrorView>) {
    (
        file_views(plan.files@),
        match plan.error {
            Some(e) => Some(e@),
            None => None,
        },
    )
}

/// The address lists that `args` asks for, computed from the text of the SDN
/// file: the files to write for each asset in turn, and the error that stops
/// generation, if any.
pub fn generate_address_lists(args: &GenerateArgs, sdn_text: &str) -> (r: GenerationPlan)
    ensures
        plan_view(r) == generation_outcome(sdn_text@, args.assets@, args.output_formats@),
{
    let doc = match parse_sdn_document(sdn_text) {
        Ok(doc) => doc,
        Err(e) => {
            return GenerationPlan { files: Vec::new(), error: Some(e) };
        },
    };
    let assets = &args.assets;
    let formats = &args.output_formats;
    let n = assets.len();
    let mut files: Vec<OutputFile> = Vec::new();
    let mut i: usize = 0;
    assert(assets@.skip(0) =~= assets@);
    assert(file_views(files@) =~= Seq::<(Seq<char>, Seq<char>)>::empty());
    while i < n
        invariant
            i <= n,
            n == assets@.len(),
            assets@ == args.assets@,
            formats@ == args.output_formats@,
            xml_document_nodes(sdn_text@) == Ok::<Seq<XmlNode>, Seq<char>>(doc@),
            files_for_assets(doc@, assets@, formats@) == (
                file_views(files@) + files_for_assets(doc@, assets@.skip(i as int), formats@).0,
                files_for_assets(doc@, assets@.skip(i as int), formats@).1,
            ),
        decreases n - i,
    {
        let ghost rest = assets@.skip(i as int);
        assert(rest[0] == assets@[i as int]);
        assert(rest.drop_first() =~= assets@.skip(i + 1));
        match asset_addresses(&doc, assets[i]) {
            Ok(list) => {
                let ghost before = file_views(files@);
                let mut more = address_files(&list, assets[i], formats);
                files.append(&mut more);
                assert(file_views(files@) =~= before + list_files(texts(list@), assets@[i as int], formats@));
            },
            Err(e) => {
                assert(files_for_assets(doc@, rest, formats@).0 =~= Seq::<(Seq<char>, Seq<char>)>::empty());
                assert(file_views(files@) + files_for_assets(doc@, rest, formats@).0 =~= file_views(files@));
                return GenerationPlan { files, error: Some(e) };
            },
        }
        i = i + 1;
    }
    assert(assets@.skip(n as int) =~= Seq::<Asset>::empty());
    assert(file_views(files@) + Seq::<(Seq<char>, Seq<char>)>::empty() =~= file_views(files@));
    GenerationPlan { files, error: None }
}

} // verus!

verus! {

proof fn lemma_first_feature_type_id(nodes: Seq<XmlNode>, target: Seq<char>, from: int)
    requires
        0 <= from,
    ensures
        first_feature_type_id(nodes, target, from) matches Some(id) ==> exists|j: int|
            from <= j < nodes.len() && (has_tag(nodes[j], "FeatureType"@) && trimmed_text(nodes[j]) == Some(target) && has_tagged_ancestor(nodes, j, "FeatureTypeValues"@) && attribute_of(nodes[j], "ID"@) is Some) && attribute_of(
                nodes[j],
                "ID"@,
            ) == Some(id) && forall|k: int|
                from <= k < j ==> !(has_tag(nodes[k], "FeatureType"@) && trimmed_text(nodes[k]) == Some(target) && has_tagged_ancestor(nodes, k, "FeatureTypeValues"@) && attribute_of(nodes[k], "ID"@) is Some),
        first_feature_type_id(nodes, target, from) is None ==> forall|j: int|
            from <= j < nodes.len() ==> !(has_tag(nodes[j], "FeatureType"@) && trimmed_text(nodes[j]) == Some(target) && has_tagged_ancestor(nodes, j, "FeatureTypeValues"@) && attribute_of(nodes[j], "ID"@) is Some),
    decreases nodes.len() - from,
{
    if from < nodes.len() {
        lemma_first_feature_type_id(nodes, target, from + 1);
        if let Some(id) = feature_type_id_at(nodes, from, target) {
            assert((has_tag(nodes[from], "FeatureType"@) && trimmed_text(nodes[from]) == Some(target) && has_tagged_ancestor(nodes, from, "FeatureTypeValues"@) && attribute_of(nodes[from], "ID"@) is Some));
        } else {
            assert(!(has_tag(nodes[from], "FeatureType"@) && trimmed_text(nodes[from]) == Some(target) && has_tagged_ancestor(nodes, from, "FeatureTypeValues"@) && attribute_of(nodes[from], "ID"@) is Some));
            if let Some(id) = first_feature_type_id(nodes, target, from + 1) {
                let j = choose|j: int|
                    from + 1 <= j < nodes.len() && (has_tag(nodes[j], "FeatureType"@) && trimmed_text(nodes[j]) == Some(target) && has_tagged_ancestor(nodes, j, "FeatureTypeValues"@) && attribute_of(nodes[j], "ID"@) is Some)
                        && attribute_of(nodes[j], "ID"@) == Some(id) && forall|k: int|
                        from + 1 <= k < j ==> !(has_tag(nodes[k], "FeatureType"@) && trimmed_text(nodes[k]) == Some(target) && has_tagged_ancestor(nodes, k, "FeatureTypeValues"@) && attribute_of(nodes[k], "ID"@) is Some);
                assert forall|k: int| from <= k < j implies !(has_tag(nodes[k], "FeatureType"@) && trimmed_text(nodes[k]) == Some(target) && has_tagged_ancestor(nodes, k, "FeatureTypeValues"@) && attribute_of(nodes[k], "ID"@) is Some) by {
                    if k > from {
                    }
                }
            }
        }
    }
}

/// The ID found for a feature type belongs to the first node that names
/// exactly that feature type: a `FeatureType` element under
/// `FeatureTypeValues` whose trimmed text equals the name, with an `ID`
/// attribute. No ID is found exactly when no node names it.
pub proof fn found_id_names_the_feature_type(nodes: Seq<XmlNode>, asset: Asset)
    ensures
        first_feature_type_id(nodes, feature_type_name(asset), 0) matches Some(id) ==> exists|j: int|
            0 <= j < nodes.len() && has_tag(nodes[j], "FeatureType"@) && trimmed_text(nodes[j])
                == Some(feature_type_name(asset)) && has_tagged_ancestor(
                nodes,
                j,
                "FeatureTypeValues"@,
            ) && attribute_of(nodes[j], "ID"@) == Some(id) && forall|k: int|
                0 <= k < j ==> !(has_tag(nodes[k], "FeatureType"@) && trimmed_text(nodes[k]) == Some(
                    feature_type_name(asset),
                ) && has_tagged_ancestor(nodes, k, "FeatureTypeValues"@) && attribute_of(
                    nodes[k],
                    "ID"@,
                ) is Some),
        first_feature_type_id(nodes, feature_type_name(asset), 0) is None <==> forall|j: int|
            0 <= j < nodes.len() ==> !(has_tag(nodes[j], "FeatureType"@) && trimmed_text(nodes[j])
                == Some(feature_type_name(asset)) && has_tagged_ancestor(
                nodes,
                j,
                "FeatureTypeValues"@,
            ) && attribute_of(nodes[j], "ID"@) is Some),
{
    lemma_first_feature_type_id(nodes, feature_type_name(asset), 0);
}

proof fn lemma_details_from_contains(nodes: Seq<XmlNode>, i: int, j0: int, x: Seq<char>)
    requires
        0 <= j0,
    ensures
        details_from(nodes, i, j0).contains(x) <==> exists|j: int|
            j0 <= j < nodes.len() && (forall|k: int| j0 <= k <= j ==> #[trigger] is_ancestor_or_self(nodes, i, k))
                && has_tag(nodes[j], "VersionDetail"@) && #[trigger] trimmed_text(nodes[j]) == Some(x) && x.len() > 0,
    decreases nodes.len() - j0,
{
    broadcast use vstd::seq_lib::lemma_seq_concat_contains_all_elements;
    if 0 <= j0 < nodes.len() && is_ancestor_or_self(nodes, i, j0) {
        lemma_details_from_contains(nodes, i, j0 + 1, x);
        let here = detail_at(nodes, j0);
        let rest = details_from(nodes, i, j0 + 1);
        assert(details_from(nodes, i, j0) == here + rest);
        if here.contains(x) {
            assert(trimmed_text(nodes[j0]) == Some(x));
            assert(forall|k: int| j0 <= k <= j0 ==> #[trigger] is_ancestor_or_self(nodes, i, k));
        } else if rest.contains(x) {
            let j = choose|j: int|
                j0 + 1 <= j < nodes.len() && (forall|k: int| j0 + 1 <= k <= j ==> #[trigger] is_ancestor_or_self(nodes, i, k))
                    && has_tag(nodes[j], "VersionDetail"@) && #[trigger] trimmed_text(nodes[j]) == Some(x) && x.len() > 0;
            assert forall|k: int| j0 <= k <= j implies #[trigger] is_ancestor_or_self(nodes, i, k) by {
                if k > j0 {
                }
            }
        }
        if exists|j: int|
            j0 <= j < nodes.len() && (forall|k: int| j0 <= k <= j ==> #[trigger] is_ancestor_or_self(nodes, i, k))
                && has_tag(nodes[j], "VersionDetail"@) && #[trigger] trimmed_text(nodes[j]) == Some(x) && x.len() > 0 {
            let j = choose|j: int|
                j0 <= j < nodes.len() && (forall|k: int| j0 <= k <= j ==> #[trigger] is_ancestor_or_self(nodes, i, k))
                    && has_tag(nodes[j], "VersionDetail"@) && #[trigger] trimmed_text(nodes[j]) == Some(x) && x.len() > 0;
            if j == j0 {
                assert(here =~= seq![x]);
                assert(here[0] == x);
            } else {
                assert(forall|k: int| j0 + 1 <= k <= j ==> #[trigger] is_ancestor_or_self(nodes, i, k));
                assert(rest.contains(x));
            }
        }
    } else {
        assert(details_from(nodes, i, j0) =~= Seq::<Seq<char>>::empty());
        if j0 < nodes.len() {
            assert(!is_ancestor_or_self(nodes, i, j0));
        }
    }
}

proof fn lemma_addresses_from_contains(nodes: Seq<XmlNode>, id: Seq<char>, i0: int, x: Seq<char>)
    requires
        0 <= i0,
    ensures
        addresses_from(nodes, id, i0).contains(x) <==> exists|i: int|
            i0 <= i < nodes.len() && attribute_of(nodes[i], "FeatureTypeID"@) == Some(id)
                && #[trigger] details_from(nodes, i, i).contains(x),
    decreases nodes.len() - i0,
{
    broadcast use vstd::seq_lib::lemma_seq_concat_contains_all_elements;
    if i0 < nodes.len() {
        lemma_addresses_from_contains(nodes, id, i0 + 1, x);
        let here = if attribute_of(nodes[i0], "FeatureTypeID"@) == Some(id) {
            details_from(nodes, i0, i0)
        } else {
            seq![]
        };
        assert(addresses_from(nodes, id, i0) == here + addresses_from(nodes, id, i0 + 1));
        if exists|i: int|
            i0 <= i < nodes.len() && attribute_of(nodes[i], "FeatureTypeID"@) == Some(id)
                && #[trigger] details_from(nodes, i, i).contains(x) {
            let i = choose|i: int|
                i0 <= i < nodes.len() && attribute_of(nodes[i], "FeatureTypeID"@) == Some(id)
                    && #[trigger] details_from(nodes, i, i).contains(x);
            if i == i0 {
                assert(here.contains(x));
            } else {
                assert(addresses_from(nodes, id, i0 + 1).contains(x));
            }
        }
    }
}

/// An address is collected for a feature type ID exactly when some node has
/// that ID as the value of its `FeatureTypeID` attribute, wherever that
/// attribute stands among the node's attributes, and the address is the
/// trimmed, non-empty text of a `VersionDetail` element in that node's
/// subtree (the run of nodes from the node on that lie under it).
pub proof fn collected_addresses_are_listed_details(nodes: Seq<XmlNode>, id: Seq<char>, x: Seq<char>)
    ensures
        addresses_from(nodes, id, 0).contains(x) <==> exists|i: int, a: int, j: int|
            #![trigger first_named(nodes[i].attributes@, a, "FeatureTypeID"@), trimmed_text(nodes[j])]
            0 <= i <= j < nodes.len() && first_named(nodes[i].attributes@, a, "FeatureTypeID"@)
                && nodes[i].attributes@[a].value@ == id
                && (forall|k: int| i <= k <= j ==> #[trigger] is_ancestor_or_self(nodes, i, k))
                && has_tag(nodes[j], "VersionDetail"@) && trimmed_text(nodes[j]) == Some(x) && x.len() > 0,
{
    lemma_addresses_from_contains(nodes, id, 0, x);
    if addresses_from(nodes, id, 0).contains(x) {
        let i = choose|i: int|
            0 <= i < nodes.len() && attribute_of(nodes[i], "FeatureTypeID"@) == Some(id)
                && #[trigger] details_from(nodes, i, i).contains(x);
        lemma_details_from_contains(nodes, i, i, x);
        let j = choose|j: int|
            i <= j < nodes.len() && (forall|k: int| i <= k <= j ==> #[trigger] is_ancestor_or_self(nodes, i, k))
                && has_tag(nodes[j], "VersionDetail"@) && #[trigger] trimmed_text(nodes[j]) == Some(x) && x.len() > 0;
        attribute_lookup_finds_first_of_name(nodes[i].attributes@, "FeatureTypeID"@);
        let a = choose|a: int| first_named(nodes[i].attributes@, a, "FeatureTypeID"@) && nodes[i].attributes@[a].value@ == id;
        assert(first_named(nodes[i].attributes@, a, "FeatureTypeID"@) && trimmed_text(nodes[j]) == Some(x));
    }
    if exists|i: int, a: int, j: int|
        #![trigger first_named(nodes[i].attributes@, a, "FeatureTypeID"@), trimmed_text(nodes[j])]
        0 <= i <= j < nodes.len() && first_named(nodes[i].attributes@, a, "FeatureTypeID"@)
            && nodes[i].attributes@[a].value@ == id
            && (forall|k: int| i <= k <= j ==> #[trigger] is_ancestor_or_self(nodes, i, k))
            && has_tag(nodes[j], "VersionDetail"@) && trimmed_text(nodes[j]) == Some(x) && x.len() > 0 {
        let (i, a, j) = choose|i: int, a: int, j: int|
            #![trigger first_named(nodes[i].attributes@, a, "FeatureTypeID"@), trimmed_text(nodes[j])]
            0 <= i <= j < nodes.len() && first_named(nodes[i].attributes@, a, "FeatureTypeID"@)
                && nodes[i].attributes@[a].value@ == id
                && (forall|k: int| i <= k <= j ==> #[trigger] is_ancestor_or_self(nodes, i, k))
                && has_tag(nodes[j], "VersionDetail"@) && trimmed_text(nodes[j]) == Some(x) && x.len() > 0;
        attribute_lookup_finds_first_of_name(nodes[i].attributes@, "FeatureTypeID"@);
        lemma_details_from_contains(nodes, i, i, x);
        assert(details_from(nodes, i, i).contains(x));
    }
}

} // verus!
