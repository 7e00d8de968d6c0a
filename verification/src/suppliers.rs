use vstd::prelude::*;

verus! {

/// Fetches views from the schema registry, for a materializer's cache.
#[derive(Debug)]
pub struct ViewSupplier {
    schema_registry_url: String,
}

impl ViewSupplier {
    /// The address of the schema registry.
    pub closed spec fn url(&self) -> Seq<char> {
        self.schema_registry_url@
    }

    pub fn boxed(schema_registry_url: String) -> (r: Box<Self>)
        ensures
            r.url() == schema_registry_url@,
    {
        Box::new(Self { schema_registry_url })
    }

    pub fn schema_registry_url(&self) -> (r: &str)
        ensures
            r@ == self.url(),
    {
        self.schema_registry_url.as_str()
    }
}

/// Fetches the query address and type of schemas from the schema registry, for the query
/// router's cache.
#[derive(Debug)]
pub struct SchemaMetadataSupplier {
    schema_registry_url: String,
}

impl SchemaMetadataSupplier {
    /// The address of the schema registry.
    pub closed spec fn url(&self) -> Seq<char> {
        self.schema_registry_url@
    }

    pub fn boxed(schema_registry_url: String) -> (r: Box<Self>)
        ensures
            r.url() == schema_registry_url@,
    {
        Box::new(Self { schema_registry_url })
    }

    pub fn schema_registry_url(&self) -> (r: &str)
        ensures
            r@ == self.url(),
    {
        self.schema_registry_url.as_str()
    }
}

/// Where the general materializer publishes.
#[derive(Clone, Debug)]
pub struct KafkaProducerSettings {
    pub brokers: String,
}

/// The service that the on-demand materializer asks.
#[derive(Clone, Debug)]
pub struct ServicesSettings {
    pub object_builder_url: String,
}

} // verus!
