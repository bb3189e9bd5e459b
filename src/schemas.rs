//! What the extractor returns for a chunk: typed entities and directed
//! relationships between them.
use crate::json::{object_of, JsonArray, JsonValue};
use vstd::prelude::*;

verus! {

/// Controlled vocabulary of entity types.
#[derive(Clone, Copy, Debug, PartialEq, Eq, Hash, Structural)]
pub enum EntityType {
    Researcher,
    Clinician,
    PatientParticipant,
    InstitutionOrganization,
    FundingAgency,
    Gene,
    Protein,
    Rna,
    Cell,
    Tissue,
    Organ,
    OrganismSpecies,
    DiseaseDisorder,
    Syndrome,
    SymptomPhenotype,
    Pathway,
    DrugCompoundChemicalSubstance,
    Biomarker,
    Reagent,
    Material,
    MethodTechniqueAssayProtocol,
    EquipmentInstrument,
    SampleSpecimen,
    ControlVariable,
    MeasurementMetric,
    Dataset,
    Model,
    HypothesisObjective,
    ResultObservationFinding,
    TheoryConcept,
    Parameter,
    ClinicalTrial,
    ProjectStudy,
    EthicalApprovalConsent,
    TimeDurationTemporalStage,
    Location,
    PublicationReference,
}

/// The name of an entity type as written on disk and in the schema.
pub open spec fn entity_type_name(t: EntityType) -> Seq<char> {
    match t {
        EntityType::Researcher => "Researcher"@,
        EntityType::Clinician => "Clinician"@,
        EntityType::PatientParticipant => "Patient/Participant"@,
        EntityType::InstitutionOrganization => "Institution/Organization"@,
        EntityType::FundingAgency => "Funding Agency"@,
        EntityType::Gene => "Gene"@,
        EntityType::Protein => "Protein"@,
        EntityType::Rna => "RNA"@,
        EntityType::Cell => "Cell"@,
        EntityType::Tissue => "Tissue"@,
        EntityType::Organ => "Organ"@,
        EntityType::OrganismSpecies => "Organism/Species"@,
        EntityType::DiseaseDisorder => "Disease/Disorder"@,
        EntityType::Syndrome => "Syndrome"@,
        EntityType::SymptomPhenotype => "Symptom/Phenotype"@,
        EntityType::Pathway => "Pathway"@,
        EntityType::DrugCompoundChemicalSubstance => "Drug/Compound/Chemical Substance"@,
        EntityType::Biomarker => "Biomarker"@,
        EntityType::Reagent => "Reagent"@,
        EntityType::Material => "Material"@,
        EntityType::MethodTechniqueAssayProtocol => "Method/Technique/Assay/Protocol"@,
        EntityType::EquipmentInstrument => "Equipment/Instrument"@,
        EntityType::SampleSpecimen => "Sample/Specimen"@,
        EntityType::ControlVariable => "Control/Variable"@,
        EntityType::MeasurementMetric => "Measurement/Metric"@,
        EntityType::Dataset => "Dataset"@,
        EntityType::Model => "Model"@,
        EntityType::HypothesisObjective => "Hypothesis/Objective"@,
        EntityType::ResultObservationFinding => "Result/Observation/Finding"@,
        EntityType::TheoryConcept => "Theory/Concept"@,
        EntityType::Parameter => "Parameter"@,
        EntityType::ClinicalTrial => "Clinical Trial"@,
        EntityType::ProjectStudy => "Project/Study"@,
        EntityType::EthicalApprovalConsent => "Ethical Approval/Consent"@,
        EntityType::TimeDurationTemporalStage => "Time/Duration/Temporal Stage"@,
        EntityType::Location => "Location"@,
        EntityType::PublicationReference => "Publication/Reference"@,
    }
}

/// Every entity type, in vocabulary order.
pub open spec fn entity_types() -> Seq<EntityType> {
    seq![
        EntityType::Researcher,
        EntityType::Clinician,
        EntityType::PatientParticipant,
        EntityType::InstitutionOrganization,
        EntityType::FundingAgency,
        EntityType::Gene,
        EntityType::Protein,
        EntityType::Rna,
        EntityType::Cell,
        EntityType::Tissue,
        EntityType::Organ,
        EntityType::OrganismSpecies,
        EntityType::DiseaseDisorder,
        EntityType::Syndrome,
        EntityType::SymptomPhenotype,
        EntityType::Pathway,
        EntityType::DrugCompoundChemicalSubstance,
        EntityType::Biomarker,
        EntityType::Reagent,
        EntityType::Material,
        EntityType::MethodTechniqueAssayProtocol,
        EntityType::EquipmentInstrument,
        EntityType::SampleSpecimen,
        EntityType::ControlVariable,
        EntityType::MeasurementMetric,
        EntityType::Dataset,
        EntityType::Model,
        EntityType::HypothesisObjective,
        EntityType::ResultObservationFinding,
        EntityType::TheoryConcept,
        EntityType::Parameter,
        EntityType::ClinicalTrial,
        EntityType::ProjectStudy,
        EntityType::EthicalApprovalConsent,
        EntityType::TimeDurationTemporalStage,
        EntityType::Location,
        EntityType::PublicationReference,
    ]
}

impl EntityType {
    pub fn as_str(&self) -> (r: &'static str)
        ensures
            r@ == entity_type_name(*self),
    {
        match self {
            EntityType::Researcher => "Researcher",
            EntityType::Clinician => "Clinician",
            EntityType::PatientParticipant => "Patient/Participant",
            EntityType::InstitutionOrganization => "Institution/Organization",
            EntityType::FundingAgency => "Funding Agency",
            EntityType::Gene => "Gene",
            EntityType::Protein => "Protein",
            EntityType::Rna => "RNA",
            EntityType::Cell => "Cell",
            EntityType::Tissue => "Tissue",
            EntityType::Organ => "Organ",
            EntityType::OrganismSpecies => "Organism/Species",
            EntityType::DiseaseDisorder => "Disease/Disorder",
            EntityType::Syndrome => "Syndrome",
            EntityType::SymptomPhenotype => "Symptom/Phenotype",
            EntityType::Pathway => "Pathway",
            EntityType::DrugCompoundChemicalSubstance => "Drug/Compound/Chemical Substance",
            EntityType::Biomarker => "Biomarker",
            EntityType::Reagent => "Reagent",
            EntityType::Material => "Material",
            EntityType::MethodTechniqueAssayProtocol => "Method/Technique/Assay/Protocol",
            EntityType::EquipmentInstrument => "Equipment/Instrument",
            EntityType::SampleSpecimen => "Sample/Specimen",
            EntityType::ControlVariable => "Control/Variable",
            EntityType::MeasurementMetric => "Measurement/Metric",
            EntityType::Dataset => "Dataset",
            EntityType::Model => "Model",
            EntityType::HypothesisObjective => "Hypothesis/Objective",
            EntityType::ResultObservationFinding => "Result/Observation/Finding",
            EntityType::TheoryConcept => "Theory/Concept",
            EntityType::Parameter => "Parameter",
            EntityType::ClinicalTrial => "Clinical Trial",
            EntityType::ProjectStudy => "Project/Study",
            EntityType::EthicalApprovalConsent => "Ethical Approval/Consent",
            EntityType::TimeDurationTemporalStage => "Time/Duration/Temporal Stage",
            EntityType::Location => "Location",
            EntityType::PublicationReference => "Publication/Reference",
        }
    }

    /// Every entity type, in vocabulary order.
    pub fn all() -> (r: Vec<EntityType>)
        ensures
            r@ == entity_types(),
    {
        let r = vec![
            EntityType::Researcher,
            EntityType::Clinician,
            EntityType::PatientParticipant,
            EntityType::InstitutionOrganization,
            EntityType::FundingAgency,
            EntityType::Gene,
            EntityType::Protein,
            EntityType::Rna,
            EntityType::Cell,
            EntityType::Tissue,
            EntityType::Organ,
            EntityType::OrganismSpecies,
            EntityType::DiseaseDisorder,
            EntityType::Syndrome,
            EntityType::SymptomPhenotype,
            EntityType::Pathway,
            EntityType::DrugCompoundChemicalSubstance,
            EntityType::Biomarker,
            EntityType::Reagent,
            EntityType::Material,
            EntityType::MethodTechniqueAssayProtocol,
            EntityType::EquipmentInstrument,
            EntityType::SampleSpecimen,
            EntityType::ControlVariable,
            EntityType::MeasurementMetric,
            EntityType::Dataset,
            EntityType::Model,
            EntityType::HypothesisObjective,
            EntityType::ResultObservationFinding,
            EntityType::TheoryConcept,
            EntityType::Parameter,
            EntityType::ClinicalTrial,
            EntityType::ProjectStudy,
            EntityType::EthicalApprovalConsent,
            EntityType::TimeDurationTemporalStage,
            EntityType::Location,
            EntityType::PublicationReference,
        ];
        assert(r@ =~= entity_types());
        r
    }

    /// The type named `name`, if the vocabulary has one.
    pub fn from_name(name: &str) -> (r: Option<EntityType>)
        ensures
            match r {
                Some(t) => entity_type_name(t) == name@,
                None => forall|i: int| 0 <= i < entity_types().len() ==> entity_type_name(#[trigger] entity_types()[i]) != name@,
            },
    {
        let all = EntityType::all();
        let mut i: usize = 0;
        while i < all.len()
            invariant
                all@ == entity_types(),
                i <= all@.len(),
                forall|j: int| 0 <= j < i ==> entity_type_name(#[trigger] entity_types()[j]) != name@,
            decreases all.len() - i,
        {
            if crate::paging::str_eq(all[i].as_str(), name) {
                return Some(all[i]);
            }
            i = i + 1;
        }
        None
    }
}

#[derive(Debug)]
pub struct ExtractedEntity {
    pub entity_name: String,
    pub entity_type: EntityType,
    pub entity_description: String,
}

#[derive(Debug)]
pub struct ExtractedRelationship {
    pub source_entity: String,
    pub target_entity: String,
    pub relationship_keywords: Vec<String>,
    pub relationship_description: String,
}

#[derive(Debug)]
pub struct EntitiesRelationships {
    pub entities: Vec<ExtractedEntity>,
    pub relationships: Vec<ExtractedRelationship>,
}

impl Default for EntitiesRelationships {
    fn default() -> (r: EntitiesRelationships)
        ensures
            r.entities@.len() == 0,
            r.relationships@.len() == 0,
    {
        EntitiesRelationships { entities: Vec::new(), relationships: Vec::new() }
    }
}

/// Whether an entity type names a symptom, ignoring ASCII case.
pub fn is_symptom(entity_type: &str) -> (r: bool)
    ensures
        r == crate::text::eq_ignore_ascii_case_spec(entity_type@, "Symptom"@),
{
    crate::text::eq_ignore_ascii_case(entity_type, "Symptom")
}

/// Whether an entity type names a disease, ignoring ASCII case.
pub fn is_disease(entity_type: &str) -> (r: bool)
    ensures
        r == crate::text::eq_ignore_ascii_case_spec(entity_type@, "Disease"@),
{
    crate::text::eq_ignore_ascii_case(entity_type, "Disease")
}

/// Whether `name` contains `query`, ignoring ASCII case.
pub fn matches_query(name: &str, query: &str) -> (r: bool)
    ensures
        r == crate::text::contains_seq(
            crate::text::ascii_lower_seq(name@),
            crate::text::ascii_lower_seq(query@),
        ),
{
    let n = crate::text::ascii_lowercase(name);
    let q = crate::text::ascii_lowercase(query);
    crate::text::contains_chars(&n, &q)
}

/// The value reached from `v` by following member names `path`.
pub open spec fn json_at(v: JsonValue, path: Seq<Seq<char>>) -> Option<JsonValue>
    decreases path.len(),
{
    if path.len() == 0 {
        Some(v)
    } else {
        match v.field_spec(path[0]) {
            Some(x) => json_at(x, path.drop_first()),
            None => None,
        }
    }
}

/// The texts of an array of strings.
pub open spec fn str_items(a: JsonArray) -> Option<Seq<Seq<char>>>
    decreases a,
{
    match a {
        JsonArray::Empty => Some(Seq::empty()),
        JsonArray::Item(v, rest) => match (*v, str_items(*rest)) {
            (JsonValue::Str(t), Some(ts)) => Some(seq![t@] + ts),
            _ => None,
        },
    }
}

/// The text at `path`.
pub open spec fn text_at(v: JsonValue, path: Seq<Seq<char>>) -> Option<Seq<char>> {
    match json_at(v, path) {
        Some(x) => x.str_spec(),
        None => None,
    }
}

/// The texts of the array of strings at `path`.
pub open spec fn texts_at(v: JsonValue, path: Seq<Seq<char>>) -> Option<Seq<Seq<char>>> {
    match json_at(v, path) {
        Some(JsonValue::Array(a)) => str_items(a),
        _ => None,
    }
}

/// Names of the entity types, in vocabulary order.
pub open spec fn entity_type_names() -> Seq<Seq<char>> {
    Seq::new(entity_types().len(), |i: int| entity_type_name(entity_types()[i]))
}

proof fn lemma_str_items(s: Seq<String>)
    ensures
        str_items(crate::graph::string_array(s)) == Some(Seq::new(s.len(), |i: int| s[i]@)),
    decreases s.len(),
{
    if s.len() > 0 {
        lemma_str_items(s.drop_first());
        assert(seq![s[0]@] + Seq::new(s.drop_first().len(), |i: int| s.drop_first()[i]@) =~= Seq::new(s.len(), |i: int| s[i]@));
    } else {
        assert(Seq::new(s.len(), |i: int| s[i]@) =~= Seq::<Seq<char>>::empty());
    }
}

fn member(k: &str, v: JsonValue) -> (r: (String, JsonValue))
    ensures
        r.0@ == k@,
        r.1 == v,
{
    (String::from_str(k), v)
}

fn text(t: &str) -> (r: JsonValue)
    ensures
        r.str_spec() == Some(t@),
{
    JsonValue::Str(String::from_str(t))
}

/// An array of the given texts.
fn texts(ts: Vec<&str>) -> (r: JsonValue)
    ensures
        r matches JsonValue::Array(a) && str_items(a) == Some(Seq::new(ts@.len(), |i: int| ts@[i]@)),
{
    let mut v: Vec<String> = Vec::new();
    let mut i: usize = 0;
    while i < ts.len()
        invariant
            i <= ts@.len(),
            v@.len() == i,
            forall|j: int| 0 <= j < i ==> (#[trigger] v@[j])@ == ts@[j]@,
        decreases ts.len() - i,
    {
        v.push(String::from_str(ts[i]));
        i = i + 1;
    }
    let a = crate::graph::strings_array(&v, 0);
    proof {
        assert(v@.subrange(0, v@.len() as int) =~= v@);
        lemma_str_items(v@);
        assert(Seq::new(v@.len(), |j: int| v@[j]@) =~= Seq::new(ts@.len(), |j: int| ts@[j]@));
    }
    JsonValue::Array(a)
}

/// `{"type": t}`
fn typed(t: &str) -> (r: JsonValue)
    ensures
        r.str_field_spec("type"@) == Some(t@),
{
    let f = vec![member("type", text(t))];
    proof {
        reveal_with_fuel(crate::keyed::lookup, 2);
    }
    object_of(f)
}

/// JSON schema of the structured extraction output: an object with an
/// array of entities (name, type from the vocabulary, description) and an
/// array of relationships (source, target, keywords, description).
pub fn entities_relationships_schema() -> (r: JsonValue)
    ensures
        text_at(r, seq!["type"@]) == Some("object"@),
        texts_at(r, seq!["required"@]) == Some(seq!["entities"@, "relationships"@]),
        text_at(r, seq!["properties"@, "entities"@, "type"@]) == Some("array"@),
        texts_at(r, seq!["properties"@, "entities"@, "items"@, "required"@]) == Some(seq!["entity_name"@, "entity_type"@, "entity_description"@]),
        texts_at(r, seq!["properties"@, "entities"@, "items"@, "properties"@, "entity_type"@, "enum"@]) == Some(entity_type_names()),
        text_at(r, seq!["properties"@, "relationships"@, "type"@]) == Some("array"@),
        texts_at(r, seq!["properties"@, "relationships"@, "items"@, "required"@]) == Some(seq!["source_entity"@, "target_entity"@, "relationship_keywords"@, "relationship_description"@]),
        text_at(r, seq!["properties"@, "relationships"@, "items"@, "properties"@, "relationship_keywords"@, "type"@]) == Some("array"@),
{
    let all = EntityType::all();
    let mut names: Vec<&str> = Vec::new();
    let mut i: usize = 0;
    while i < all.len()
        invariant
            all@ == entity_types(),
            i <= all@.len(),
            names@.len() == i,
            forall|j: int| 0 <= j < i ==> (#[trigger] names@[j])@ == entity_type_name(entity_types()[j]),
        decreases all.len() - i,
    {
        names.push(all[i].as_str());
        i = i + 1;
    }
    let enum_array = texts(names);
    proof {
        assert(Seq::new(names@.len(), |j: int| names@[j]@) =~= entity_type_names());
    }
    let entity_type_prop_f = vec![member("type", text("string")), member("enum", enum_array)];
    proof {
        reveal_strlit("type");
        reveal_strlit("enum");
        assert("type"@[0] != "enum"@[0]);
        assert(crate::keyed::keys_unique(entity_type_prop_f@));
    }
    let entity_type_prop = object_of(entity_type_prop_f);
    let entity_props_f = vec![member("entity_name", typed("string")), member("entity_type", entity_type_prop), member("entity_description", typed("string"))];
    proof {
        reveal_strlit("entity_name");
        reveal_strlit("entity_type");
        reveal_strlit("entity_description");
        assert("entity_name"@[7] != "entity_type"@[7]);
        assert("entity_name"@.len() != "entity_description"@.len());
        assert("entity_type"@.len() != "entity_description"@.len());
        assert(crate::keyed::keys_unique(entity_props_f@));
    }
    let entity_props = object_of(entity_props_f);
    let entity_item_f = vec![member("type", text("object")), member("additionalProperties", JsonValue::Bool(false)), member("properties", entity_props), member("required", texts(vec!["entity_name", "entity_type", "entity_description"]))];
    proof {
        reveal_strlit("type");
        reveal_strlit("additionalProperties");
        reveal_strlit("properties");
        reveal_strlit("required");
        assert("type"@.len() != "additionalProperties"@.len());
        assert("type"@.len() != "properties"@.len());
        assert("type"@.len() != "required"@.len());
        assert("additionalProperties"@.len() != "properties"@.len());
        assert("additionalProperties"@.len() != "required"@.len());
        assert("properties"@.len() != "required"@.len());
        assert(crate::keyed::keys_unique(entity_item_f@));
    }
    let entity_item = object_of(entity_item_f);
    let entities_f = vec![member("type", text("array")), member("items", entity_item)];
    proof {
        reveal_strlit("type");
        reveal_strlit("items");
        assert("type"@.len() != "items"@.len());
        assert(crate::keyed::keys_unique(entities_f@));
    }
    let entities = object_of(entities_f);
    let keywords_f = vec![member("type", text("array")), member("items", typed("string"))];
    proof {
        reveal_strlit("type");
        reveal_strlit("items");
        assert("type"@.len() != "items"@.len());
        assert(crate::keyed::keys_unique(keywords_f@));
    }
    let keywords = object_of(keywords_f);
    let rel_props_f = vec![member("source_entity", typed("string")), member("target_entity", typed("string")), member("relationship_keywords", keywords), member("relationship_description", typed("string"))];
    proof {
        reveal_strlit("source_entity");
        reveal_strlit("target_entity");
        reveal_strlit("relationship_keywords");
        reveal_strlit("relationship_description");
        assert("source_entity"@[0] != "target_entity"@[0]);
        assert("source_entity"@.len() != "relationship_keywords"@.len());
        assert("source_entity"@.len() != "relationship_description"@.len());
        assert("target_entity"@.len() != "relationship_keywords"@.len());
        assert("target_entity"@.len() != "relationship_description"@.len());
        assert("relationship_keywords"@.len() != "relationship_description"@.len());
        assert(crate::keyed::keys_unique(rel_props_f@));
    }
    let rel_props = object_of(rel_props_f);
    let rel_item_f = vec![member("type", text("object")), member("additionalProperties", JsonValue::Bool(false)), member("properties", rel_props), member("required", texts(vec!["source_entity", "target_entity", "relationship_keywords", "relationship_description"]))];
    proof {
        reveal_strlit("type");
        reveal_strlit("additionalProperties");
        reveal_strlit("properties");
        reveal_strlit("required");
        assert("type"@.len() != "additionalProperties"@.len());
        assert("type"@.len() != "properties"@.len());
        assert("type"@.len() != "required"@.len());
        assert("additionalProperties"@.len() != "properties"@.len());
        assert("additionalProperties"@.len() != "required"@.len());
        assert("properties"@.len() != "required"@.len());
        assert(crate::keyed::keys_unique(rel_item_f@));
    }
    let rel_item = object_of(rel_item_f);
    let relationships_f = vec![member("type", text("array")), member("items", rel_item)];
    proof {
        reveal_strlit("type");
        reveal_strlit("items");
        assert("type"@.len() != "items"@.len());
        assert(crate::keyed::keys_unique(relationships_f@));
    }
    let relationships = object_of(relationships_f);
    let props_f = vec![member("entities", entities), member("relationships", relationships)];
    proof {
        reveal_strlit("entities");
        reveal_strlit("relationships");
        assert("entities"@.len() != "relationships"@.len());
        assert(crate::keyed::keys_unique(props_f@));
    }
    let props = object_of(props_f);
    let root_f = vec![member("type", text("object")), member("additionalProperties", JsonValue::Bool(false)), member("properties", props), member("required", texts(vec!["entities", "relationships"]))];
    proof {
        reveal_strlit("type");
        reveal_strlit("additionalProperties");
        reveal_strlit("properties");
        reveal_strlit("required");
        assert("type"@.len() != "additionalProperties"@.len());
        assert("type"@.len() != "properties"@.len());
        assert("type"@.len() != "required"@.len());
        assert("additionalProperties"@.len() != "properties"@.len());
        assert("additionalProperties"@.len() != "required"@.len());
        assert("properties"@.len() != "required"@.len());
        assert(crate::keyed::keys_unique(root_f@));
    }
    let root = object_of(root_f);
    proof {
        reveal_with_fuel(crate::keyed::lookup, 5);
        reveal_with_fuel(json_at, 7);
    }
    root
}

/// Distinct entity types have distinct names, so a stored name identifies
/// its type.
pub proof fn law_entity_type_names_distinct(a: EntityType, b: EntityType)
    ensures
        a != b ==> entity_type_name(a) != entity_type_name(b),
{
    reveal_strlit("Researcher");
    reveal_strlit("Clinician");
    reveal_strlit("Patient/Participant");
    reveal_strlit("Institution/Organization");
    reveal_strlit("Funding Agency");
    reveal_strlit("Gene");
    reveal_strlit("Protein");
    reveal_strlit("RNA");
    reveal_strlit("Cell");
    reveal_strlit("Tissue");
    reveal_strlit("Organ");
    reveal_strlit("Organism/Species");
    reveal_strlit("Disease/Disorder");
    reveal_strlit("Syndrome");
    reveal_strlit("Symptom/Phenotype");
    reveal_strlit("Pathway");
    reveal_strlit("Drug/Compound/Chemical Substance");
    reveal_strlit("Biomarker");
    reveal_strlit("Reagent");
    reveal_strlit("Material");
    reveal_strlit("Method/Technique/Assay/Protocol");
    reveal_strlit("Equipment/Instrument");
    reveal_strlit("Sample/Specimen");
    reveal_strlit("Control/Variable");
    reveal_strlit("Measurement/Metric");
    reveal_strlit("Dataset");
    reveal_strlit("Model");
    reveal_strlit("Hypothesis/Objective");
    reveal_strlit("Result/Observation/Finding");
    reveal_strlit("Theory/Concept");
    reveal_strlit("Parameter");
    reveal_strlit("Clinical Trial");
    reveal_strlit("Project/Study");
    reveal_strlit("Ethical Approval/Consent");
    reveal_strlit("Time/Duration/Temporal Stage");
    reveal_strlit("Location");
    reveal_strlit("Publication/Reference");
    if a != b && entity_type_name(a) == entity_type_name(b) {
        assert(entity_type_name(a).len() == entity_type_name(b).len());
        assert(entity_type_name(a)[0] == entity_type_name(b)[0]);
        assert(entity_type_name(a)[1] == entity_type_name(b)[1]);
        assert(entity_type_name(a)[2] == entity_type_name(b)[2]);
    }
}

} // verus!
