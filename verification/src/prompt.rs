//! The Mapper's prompts: the system prompt (rules, the valid target
//! types, the required attributes) and the user prompt (the inventory,
//! proven equivalences, knowledge hits).
use vstd::prelude::*;
use crate::scanner::{EstateInventory, str_views};
use crate::text::{owned, str_eq, seq_lt, lemma_seq_lt_irreflexive};
use crate::validator::ProviderSchema;
use crate::generator::{required_names, stable_order, key_lt, sorted_order};

verus! {

/// The fixed head of the system prompt. Its version line is part of the
/// mapping cache key: changing it invalidates every cached plan.
pub const SYSTEM_PROMPT_HEADER: &'static str = "Terrashift Mapper v2.\nYou translate Terraform resources from one cloud provider to another.\n\nRules:\n1. Output ONLY a single JSON object conforming to the MappingPlan schema below. No prose, no markdown fences, no commentary.\n2. Every source resource MUST have exactly one MappedResource entry.\n3. For every required attribute on the target resource type, set a string, number, bool, or Reference value. Refer to the REQUIRED ATTRIBUTES section below for the per-target-type list. NEVER omit a required attribute.\n4. References (e.g., aws_vpc.main.id) use {\"reference\": \"aws_vpc.main.id\"} — NOT a quoted string.\n5. CIDR ranges, AMI ids, regions are STRINGS — wrap them with {\"string\": \"...\"}. Lists wrap with {\"list\": [...]}. Maps wrap with {\"map\": {...}}. Never emit a raw scalar where an AttributeValue is expected.\n6. The `target_type` MUST be one of the names listed in the VALID TARGET TYPES section below. If a source resource has no listed equivalent, omit it entirely (NOT an entry with empty target_type — the operator's downstream report will surface the gap). Do NOT invent a hallucinated target type.\n7. `source_addr`, `target_addr`, `target_type`, `target_name`, and entries inside `dependencies` are PLAIN JSON STRINGS, NOT envelope-tagged. For example: \"dependencies\": [\"azurerm_virtual_network.main.id\"] — NOT [{\"reference\": \"azurerm_virtual_network.main.id\"}]. Only values inside `attributes` use the envelope tags.\n\nMappingPlan schema (JSON):\n{\n\"run_id\": \"uuid-v4\",\n\"source_provider\": \"google|aws|azurerm\",\n\"target_provider\": \"google|aws|azurerm\",\n\"resources\": [\n{\n\"source_addr\": \"google_compute_network.main\",\n\"target_addr\": \"aws_vpc.main\",\n\"target_type\": \"aws_vpc\",\n\"target_name\": \"main\",\n\"attributes\": { \"cidr_block\": { \"string\": \"10.0.0.0/16\" } },\n\"dependencies\": [\"aws_vpc.main.id\"]\n}\n]\n}\n";

/// Whether `out` is `ins` sorted (equal strings keep their order), through
/// the positions `order`.
pub open spec fn sorted_strings(ins: Seq<String>, out: Seq<Seq<char>>, order: Seq<usize>) -> bool {
    &&& order.len() == ins.len()
    &&& out.len() == ins.len()
    &&& forall|k: int| 0 <= k < ins.len() ==> #[trigger] order[k] < ins.len() && out[k] == ins[order[k] as int]@
    &&& forall|k: int, l: int| 0 <= k < l < ins.len() ==> #[trigger] order[k] != #[trigger] order[l]
    &&& forall|k: int, l: int| 0 <= k < l < ins.len() ==> seq_lt(ins[#[trigger] order[k] as int]@, ins[#[trigger] order[l] as int]@)
        || (ins[order[k] as int]@ == ins[order[l] as int]@ && order[k] < order[l])
}

/// The strings sorted (a stable sort).
pub fn sort_strings(ins: &Vec<String>) -> (r: Vec<String>)
    ensures
        exists|order: Seq<usize>| #[trigger] sorted_strings(ins@, str_views(r@), order),
{
    let mut keys: Vec<(String, String)> = Vec::new();
    let mut i: usize = 0;
    while i < ins.len()
        invariant
            i <= ins@.len(),
            keys@.len() == i,
            forall|k: int| 0 <= k < i ==> (#[trigger] keys@[k]).0@ == Seq::<char>::empty() && keys@[k].1@ == ins@[k]@,
        decreases ins@.len() - i,
    {
        keys.push((String::new(), ins[i].clone()));
        i = i + 1;
    }
    let order = stable_order(&keys);
    let mut out: Vec<String> = Vec::new();
    let mut j: usize = 0;
    while j < ins.len()
        invariant
            sorted_order(keys@, order@, ins@.len() as int),
            j <= ins@.len(),
            out@.len() == j,
            forall|k: int| 0 <= k < j ==> (#[trigger] out@[k])@ == ins@[order@[k] as int]@,
        decreases ins@.len() - j,
    {
        out.push(ins[order[j]].clone());
        j = j + 1;
    }
    proof {
        lemma_seq_lt_irreflexive(Seq::<char>::empty());
        assert forall|k: int, l: int| 0 <= k < l < ins@.len() implies seq_lt(ins@[#[trigger] order@[k] as int]@, ins@[#[trigger] order@[l] as int]@)
            || (ins@[order@[k] as int]@ == ins@[order@[l] as int]@ && order@[k] < order@[l]) by {
            assert(key_lt(keys@, order@[k] as int, order@[l] as int));
        }
        assert(sorted_strings(ins@, str_views(out@), order@));
    }
    out
}

/// The strings of `ins` at the positions `order`.
pub open spec fn through(ins: Seq<String>, order: Seq<usize>) -> Seq<Seq<char>> {
    order.map_values(|k: usize| ins[k as int]@)
}

/// `- <type>` per line.
pub open spec fn bullet_lines(ts: Seq<Seq<char>>) -> Seq<char>
    decreases ts.len(),
{
    if ts.len() == 0 {
        Seq::empty()
    } else {
        bullet_lines(ts.drop_last()) + "- "@ + ts.last() + "\n"@
    }
}

/// The names joined with ", ".
pub open spec fn comma_joined(ns: Seq<Seq<char>>) -> Seq<char>
    decreases ns.len(),
{
    if ns.len() == 0 {
        Seq::empty()
    } else if ns.len() == 1 {
        ns[0]
    } else {
        comma_joined(ns.drop_last()) + ", "@ + ns.last()
    }
}

/// The `MUST set` lines for the sorted types that the schema has with at
/// least one required attribute.
pub open spec fn must_set_lines(schema: ProviderSchema, ts: Seq<Seq<char>>) -> Seq<char>
    decreases ts.len(),
{
    if ts.len() == 0 {
        Seq::empty()
    } else {
        let prev = must_set_lines(schema, ts.drop_last());
        let t = ts.last();
        match schema.resources.spec_get(t) {
            Some(rs) => {
                let req = required_names(rs.attributes@);
                if req.len() == 0 {
                    prev
                } else {
                    prev + t + ": MUST set { "@ + comma_joined(req) + " }\n"@
                }
            },
            None => prev,
        }
    }
}

/// The system prompt for `target` with the sorted supported types `ts`.
pub open spec fn system_prompt(target: Seq<char>, schema: Option<ProviderSchema>, ts: Seq<Seq<char>>) -> Seq<char> {
    SYSTEM_PROMPT_HEADER@ + "\n"@ + "=== VALID TARGET TYPES ("@ + target + ") ===\n"@ + (if ts.len() == 0 {
        "(no templates registered for this target provider — Mapper will reject every output)\n"@
    } else {
        bullet_lines(ts)
    }) + "\n"@ + match schema {
        Some(s) => "=== REQUIRED ATTRIBUTES (per target type) ===\n"@ + must_set_lines(s, ts) + "\n"@,
        None => "(REQUIRED ATTRIBUTES block omitted — no target schema cached. Use general knowledge of the provider; Validator will catch missing required attributes downstream.)\n\n"@,
    }
}

fn join_names(ns: &Vec<String>) -> (r: String)
    ensures
        r@ == comma_joined(str_views(ns@)),
{
    let mut out = String::new();
    let mut i: usize = 0;
    proof {
        assert(str_views(ns@).take(0) =~= Seq::<Seq<char>>::empty());
    }
    while i < ns.len()
        invariant
            i <= ns@.len(),
            out@ == comma_joined(str_views(ns@).take(i as int)),
        decreases ns@.len() - i,
    {
        proof {
            assert(str_views(ns@).take(i + 1).drop_last() =~= str_views(ns@).take(i as int));
            assert(str_views(ns@).take(i + 1).last() == ns@[i as int]@);
        }
        if i > 0 {
            out.append(", ");
        } else {
            proof {
                assert(str_views(ns@).take(1) =~= seq![ns@[0]@]);
            }
        }
        out.append(ns[i].as_str());
        proof {
            if i == 0 {
                assert(out@ =~= comma_joined(str_views(ns@).take(1)));
            }
        }
        i = i + 1;
    }
    proof {
        assert(str_views(ns@).take(ns@.len() as int) =~= str_views(ns@));
    }
    out
}

/// The system prompt: the fixed rules, the valid target types (sorted),
/// and, with a target schema, each valid type's required attributes (or a
/// note that the schema is not cached).
pub fn build_system_prompt(target_provider: &str, target_schema: Option<&ProviderSchema>, supported_types: &Vec<String>) -> (r: String)
    ensures
        exists|order: Seq<usize>| {
            &&& #[trigger] sorted_strings(supported_types@, through(supported_types@, order), order)
            &&& r@ == system_prompt(
                target_provider@,
                match target_schema { Some(s) => Some(*s), None => None },
                through(supported_types@, order),
            )
        },
{
    let sorted = sort_strings(supported_types);
    let ghost ts = str_views(sorted@);
    let ghost order = choose|order: Seq<usize>| #[trigger] sorted_strings(supported_types@, ts, order);
    proof {
        assert(through(supported_types@, order) =~= ts);
    }
    let mut out = owned(SYSTEM_PROMPT_HEADER);
    out.append("\n");
    out.append("=== VALID TARGET TYPES (");
    out.append(target_provider);
    out.append(") ===\n");
    let ghost head = out@;
    if sorted.len() == 0 {
        out.append("(no templates registered for this target provider — Mapper will reject every output)\n");
    } else {
        let mut i: usize = 0;
        proof {
            assert(ts.take(0) =~= Seq::<Seq<char>>::empty());
        }
        while i < sorted.len()
            invariant
                ts == str_views(sorted@),
                i <= sorted@.len(),
                out@ == head + bullet_lines(ts.take(i as int)),
            decreases sorted@.len() - i,
        {
            proof {
                assert(ts.take(i + 1).drop_last() =~= ts.take(i as int));
                assert(ts.take(i + 1).last() == sorted@[i as int]@);
            }
            out.append("- ");
            out.append(sorted[i].as_str());
            out.append("\n");
            i = i + 1;
        }
        proof {
            assert(ts.take(sorted@.len() as int) =~= ts);
        }
    }
    out.append("\n");
    match target_schema {
        Some(schema) => {
            out.append("=== REQUIRED ATTRIBUTES (per target type) ===\n");
            let ghost mid = out@;
            let mut i: usize = 0;
            proof {
                assert(ts.take(0) =~= Seq::<Seq<char>>::empty());
            }
            while i < sorted.len()
                invariant
                    ts == str_views(sorted@),
                    i <= sorted@.len(),
                    out@ == mid + must_set_lines(*schema, ts.take(i as int)),
                decreases sorted@.len() - i,
            {
                let t = &sorted[i];
                proof {
                    assert(ts.take(i + 1).drop_last() =~= ts.take(i as int));
                    assert(ts.take(i + 1).last() == t@);
                }
                match schema.resources.get(t.as_str()) {
                    Some(rs) => {
                        let tmpl = crate::generator::derive_template(rs);
                        if tmpl.required.len() > 0 {
                            out.append(t.as_str());
                            out.append(": MUST set { ");
                            out.append(join_names(&tmpl.required).as_str());
                            out.append(" }\n");
                        }
                    },
                    None => {},
                }
                i = i + 1;
            }
            proof {
                assert(ts.take(sorted@.len() as int) =~= ts);
            }
            out.append("\n");
        },
        None => {
            out.append("(REQUIRED ATTRIBUTES block omitted — no target schema cached. Use general knowledge of the provider; Validator will catch missing required attributes downstream.)\n\n");
        },
    }
    proof {
        let sch = match target_schema { Some(s) => Some(*s), None => None };
        assert(out@ =~= system_prompt(target_provider@, sch, ts));
    }
    out
}

/// A proven source-to-target equivalence, with its confidence already
/// written with two decimals.
pub struct CuratedExample {
    pub source_resource: String,
    pub target_resource: String,
    pub confidence_text: String,
    /// Source attribute to target attribute.
    pub attribute_alignments: Vec<(String, String)>,
}

/// `- <type>.<name>` for every resource of every file, in order.
pub open spec fn inventory_lines(files: Seq<crate::scanner::ScannedFile>) -> Seq<char>
    decreases files.len(),
{
    if files.len() == 0 {
        Seq::empty()
    } else {
        inventory_lines(files.drop_last()) + resource_lines(files.last().resources@)
    }
}

/// `- <type>.<name>` per resource.
pub open spec fn resource_lines(rs: Seq<crate::scanner::Resource>) -> Seq<char>
    decreases rs.len(),
{
    if rs.len() == 0 {
        Seq::empty()
    } else {
        resource_lines(rs.drop_last()) + "- "@ + rs.last().resource_type@ + "."@ + rs.last().name@ + "\n"@
    }
}

/// `s=t` pairs joined with ", ".
pub open spec fn pairs_joined(ps: Seq<(String, String)>) -> Seq<char>
    decreases ps.len(),
{
    if ps.len() == 0 {
        Seq::empty()
    } else if ps.len() == 1 {
        ps[0].0@ + "="@ + ps[0].1@
    } else {
        pairs_joined(ps.drop_last()) + ", "@ + ps.last().0@ + "="@ + ps.last().1@
    }
}

/// The lines of the proven equivalences.
pub open spec fn curated_lines(cs: Seq<CuratedExample>) -> Seq<char>
    decreases cs.len(),
{
    if cs.len() == 0 {
        Seq::empty()
    } else {
        let m = cs.last();
        curated_lines(cs.drop_last()) + m.source_resource@ + " → "@ + m.target_resource@ + "  (confidence "@
            + m.confidence_text@ + ")\n"@ + if m.attribute_alignments@.len() == 0 {
            Seq::empty()
        } else {
            "  attrs: "@ + pairs_joined(m.attribute_alignments@) + "\n"@
        }
    }
}

/// The candidate lines of the knowledge hits (source types without hits
/// are left out).
pub open spec fn hit_lines(hs: Seq<(String, Vec<String>)>) -> Seq<char>
    decreases hs.len(),
{
    if hs.len() == 0 {
        Seq::empty()
    } else {
        let (t, cands) = hs.last();
        hit_lines(hs.drop_last()) + if cands@.len() == 0 {
            Seq::empty()
        } else {
            t@ + " → candidates: "@ + comma_joined(str_views(cands@)) + "\n"@
        }
    }
}

/// Whether no file of the inventory has a resource.
pub open spec fn no_resources(files: Seq<crate::scanner::ScannedFile>) -> bool {
    forall|i: int| 0 <= i < files.len() ==> (#[trigger] files[i]).resources@.len() == 0
}

/// The user prompt of a mapping request.
pub open spec fn user_prompt(
    source: Seq<char>,
    target: Seq<char>,
    files: Seq<crate::scanner::ScannedFile>,
    hits: Seq<(String, Vec<String>)>,
    curated: Seq<CuratedExample>,
) -> Seq<char> {
    "Map the following Terraform estate from `"@ + source + "` to `"@ + target + "`.\n\n"@
        + "=== SOURCE INVENTORY ===\n"@ + inventory_lines(files) + (if no_resources(files) {
        "(no resources)\n"@
    } else {
        Seq::empty()
    }) + "\n"@ + (if curated.len() == 0 {
        Seq::empty()
    } else {
        "=== PROVEN EQUIVALENCES (authoritative — prefer these) ===\n"@ + curated_lines(curated) + "\n"@
    }) + "=== KNOWLEDGE HITS (top-K target candidates per source type) ===\n"@ + (if hits.len() == 0 {
        "(no knowledge hits — proceed with general knowledge of the target provider)\n"@
    } else {
        hit_lines(hits)
    }) + "\n"@ + "=== OUTPUT ===\nReturn ONLY the MappingPlan JSON object.\n"@
}

fn append_pairs(out: &mut String, ps: &Vec<(String, String)>)
    ensures
        final(out)@ == old(out)@ + pairs_joined(ps@),
{
    let ghost start = out@;
    let mut i: usize = 0;
    proof {
        assert(ps@.take(0) =~= Seq::<(String, String)>::empty());
    }
    while i < ps.len()
        invariant
            i <= ps@.len(),
            out@ == start + pairs_joined(ps@.take(i as int)),
        decreases ps@.len() - i,
    {
        proof {
            assert(ps@.take(i + 1).drop_last() =~= ps@.take(i as int));
            assert(ps@.take(i + 1).last() == ps@[i as int]);
            if i == 0 {
                assert(ps@.take(1) =~= seq![ps@[0]]);
            }
        }
        if i > 0 {
            out.append(", ");
        }
        out.append(ps[i].0.as_str());
        out.append("=");
        out.append(ps[i].1.as_str());
        proof {
            assert(out@ =~= start + pairs_joined(ps@.take(i + 1)));
        }
        i = i + 1;
    }
    proof {
        assert(ps@.take(ps@.len() as int) =~= ps@);
    }
}

/// The user prompt: the inventory's resources (or a note that there are
/// none), the proven equivalences when there are any, the knowledge hits
/// per source type (or a note that there are none), and the output rule.
pub fn build_user_prompt(
    source_provider: &str,
    target_provider: &str,
    inventory: &EstateInventory,
    knowledge_hits: &Vec<(String, Vec<String>)>,
    curated: &Vec<CuratedExample>,
) -> (r: String)
    ensures
        r@ == user_prompt(source_provider@, target_provider@, inventory.files@, knowledge_hits@, curated@),
{
    let mut s = owned("Map the following Terraform estate from `");
    s.append(source_provider);
    s.append("` to `");
    s.append(target_provider);
    s.append("`.\n\n");
    s.append("=== SOURCE INVENTORY ===\n");
    let ghost h0 = s@;
    let ghost fs = inventory.files@;
    let mut all_empty = true;
    let mut i: usize = 0;
    proof {
        assert(fs.take(0) =~= Seq::<crate::scanner::ScannedFile>::empty());
    }
    while i < inventory.files.len()
        invariant
            fs == inventory.files@,
            i <= fs.len(),
            s@ == h0 + inventory_lines(fs.take(i as int)),
            all_empty == no_resources(fs.take(i as int)),
        decreases fs.len() - i,
    {
        let rs = &inventory.files[i].resources;
        let ghost h1 = s@;
        let mut j: usize = 0;
        proof {
            assert(rs@.take(0) =~= Seq::<crate::scanner::Resource>::empty());
        }
        while j < rs.len()
            invariant
                j <= rs@.len(),
                s@ == h1 + resource_lines(rs@.take(j as int)),
            decreases rs@.len() - j,
        {
            proof {
                assert(rs@.take(j + 1).drop_last() =~= rs@.take(j as int));
                assert(rs@.take(j + 1).last() == rs@[j as int]);
            }
            s.append("- ");
            s.append(rs[j].resource_type.as_str());
            s.append(".");
            s.append(rs[j].name.as_str());
            s.append("\n");
            j = j + 1;
        }
        if rs.len() > 0 {
            all_empty = false;
        }
        proof {
            assert(rs@.take(rs@.len() as int) =~= rs@);
            assert(fs.take(i + 1).drop_last() =~= fs.take(i as int));
            assert(fs.take(i + 1).last() == fs[i as int]);
            if all_empty {
                assert forall|k: int| 0 <= k < i + 1 implies (#[trigger] fs.take(i + 1)[k]).resources@.len() == 0 by {
                    if k < i {
                        assert(fs.take(i + 1)[k] == fs.take(i as int)[k]);
                    }
                }
            } else if rs@.len() > 0 {
                assert(fs.take(i + 1)[i as int].resources@.len() > 0);
            } else {
                let k = choose|k: int| 0 <= k < i && (#[trigger] fs.take(i as int)[k]).resources@.len() != 0;
                assert(fs.take(i + 1)[k] == fs.take(i as int)[k]);
            }
        }
        i = i + 1;
    }
    proof {
        assert(fs.take(fs.len() as int) =~= fs);
    }
    if all_empty {
        s.append("(no resources)\n");
    }
    s.append("\n");
    let ghost h2 = s@;
    if curated.len() > 0 {
        s.append("=== PROVEN EQUIVALENCES (authoritative — prefer these) ===\n");
        let ghost h3 = s@;
        let mut k: usize = 0;
        proof {
            assert(curated@.take(0) =~= Seq::<CuratedExample>::empty());
        }
        while k < curated.len()
            invariant
                k <= curated@.len(),
                s@ == h3 + curated_lines(curated@.take(k as int)),
            decreases curated@.len() - k,
        {
            let m = &curated[k];
            proof {
                assert(curated@.take(k + 1).drop_last() =~= curated@.take(k as int));
                assert(curated@.take(k + 1).last() == curated@[k as int]);
            }
            s.append(m.source_resource.as_str());
            s.append(" → ");
            s.append(m.target_resource.as_str());
            s.append("  (confidence ");
            s.append(m.confidence_text.as_str());
            s.append(")\n");
            if m.attribute_alignments.len() > 0 {
                s.append("  attrs: ");
                append_pairs(&mut s, &m.attribute_alignments);
                s.append("\n");
            }
            proof {
                assert(s@ =~= h3 + curated_lines(curated@.take(k + 1)));
            }
            k = k + 1;
        }
        proof {
            assert(curated@.take(curated@.len() as int) =~= curated@);
        }
        s.append("\n");
    }
    s.append("=== KNOWLEDGE HITS (top-K target candidates per source type) ===\n");
    if knowledge_hits.len() == 0 {
        s.append("(no knowledge hits — proceed with general knowledge of the target provider)\n");
    } else {
        let ghost h4 = s@;
        let mut q: usize = 0;
        proof {
            assert(knowledge_hits@.take(0) =~= Seq::<(String, Vec<String>)>::empty());
        }
        while q < knowledge_hits.len()
            invariant
                q <= knowledge_hits@.len(),
                s@ == h4 + hit_lines(knowledge_hits@.take(q as int)),
            decreases knowledge_hits@.len() - q,
        {
            proof {
                assert(knowledge_hits@.take(q + 1).drop_last() =~= knowledge_hits@.take(q as int));
                assert(knowledge_hits@.take(q + 1).last() == knowledge_hits@[q as int]);
            }
            let cands = &knowledge_hits[q].1;
            if cands.len() > 0 {
                s.append(knowledge_hits[q].0.as_str());
                s.append(" → candidates: ");
                s.append(join_names(cands).as_str());
                s.append("\n");
            }
            proof {
                assert(s@ =~= h4 + hit_lines(knowledge_hits@.take(q + 1)));
            }
            q = q + 1;
        }
        proof {
            assert(knowledge_hits@.take(knowledge_hits@.len() as int) =~= knowledge_hits@);
        }
    }
    s.append("\n");
    s.append("=== OUTPUT ===\nReturn ONLY the MappingPlan JSON object.\n");
    proof {
        assert(s@ =~= user_prompt(source_provider@, target_provider@, inventory.files@, knowledge_hits@, curated@));
    }
    s
}

} // verus!
