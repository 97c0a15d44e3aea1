syntax = "proto3";

package connman;

service ConnMan {
  rpc AddTLSListener(AddTLSListenerRequest) returns (AddTLSListenerResponse);
  rpc RegisterImage(RegisterImageRequest) returns (RegisterImageResponse);
  rpc AddProxy(AddProxyRequest) returns (AddProxyResponse);
  rpc RemoveProxy(RemoveProxyRequest) returns (RemoveProxyResponse);
}

message AddTLSListenerRequest {}

message AddTLSListenerResponse {}

message RegisterImageRequest {
  string image = 1;
  string tag = 2;
  uint32 port = 3;
}

message RegisterImageResponse {
  bool ok = 1;
  oneof response {
    uint64 id = 2;
    string error = 3;
  }
}

message AddProxyRequest {
  uint64 id = 1;
  optional string env_key = 2;
  optional string env_value = 3;
}

message Proxy {
  uint64 proxy_id = 1;
  string host = 2;
  string port = 3;
}

message AddProxyResponse {
  bool ok = 1;
  oneof response {
    Proxy proxy = 2;
    string error = 3;
  }
}

message RemoveProxyRequest {
  uint64 id = 1;
}

message RemoveProxyResponse {
  bool ok = 1;
  oneof response {
    uint64 id = 2;
    string error = 3;
  }
}
